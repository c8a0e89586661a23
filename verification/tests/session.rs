use aether_opencode::json::{JsonNumber, JsonValue};
use aether_opencode::session::{
    compare_client_version, fallback_session_bytes, new_session_id, session_bytes, session_id_from_bytes,
    session_id_from_sources,
};
use aether_opencode::upstream::{
    build_opencode_upstream_headers, ensure_opencode_chat_request_body,
    new_opencode_session_id, normalize_opencode_client_version, DEFAULT_OPENCODE_UA_VERSION,
    MIN_OPENCODE_UA_VERSION,
};

fn to_json(v: &serde_json::Value) -> JsonValue {
    match v {
        serde_json::Value::Null => JsonValue::Null,
        serde_json::Value::Bool(b) => JsonValue::Bool(*b),
        serde_json::Value::Number(n) => match (n.as_u64(), n.as_i64()) {
            (Some(u), _) => JsonValue::Number(JsonNumber::PosInt(u)),
            (None, Some(i)) => JsonValue::Number(JsonNumber::NegInt(i)),
            _ => JsonValue::Number(JsonNumber::FloatBits(n.as_f64().unwrap_or(0.0).to_bits())),
        },
        serde_json::Value::String(s) => JsonValue::Str(s.clone()),
        serde_json::Value::Array(items) => JsonValue::Array(items.iter().map(to_json).collect()),
        serde_json::Value::Object(map) => JsonValue::Object(
            map.iter().map(|(k, v)| (k.clone(), to_json(v))).collect(),
        ),
    }
}

fn json(text: &str) -> JsonValue {
    to_json(&serde_json::from_str::<serde_json::Value>(text).expect("valid json"))
}

fn get<'a>(v: &'a JsonValue, key: &str) -> Option<&'a JsonValue> {
    match v {
        JsonValue::Object(entries) => entries.iter().find(|(k, _)| k == key).map(|(_, v)| v),
        _ => None,
    }
}

fn text(v: Option<&JsonValue>) -> Option<&str> {
    match v {
        Some(JsonValue::Str(s)) => Some(s.as_str()),
        _ => None,
    }
}

fn tool_names(body: &JsonValue) -> Vec<String> {
    match get(body, "tools") {
        Some(JsonValue::Array(tools)) => tools
            .iter()
            .filter_map(|t| text(get(get(t, "function")?, "name")).map(str::to_string))
            .collect(),
        _ => Vec::new(),
    }
}

fn is_session_shape(id: &str) -> bool {
    id.starts_with("ses_")
        && id.len() == 30
        && id[4..16]
            .chars()
            .all(|c| c.is_ascii_hexdigit() && !c.is_ascii_uppercase())
        && id[16..].chars().all(|c| c.is_ascii_alphanumeric())
}

#[test]
fn compares_versions() {
    assert_eq!(compare_client_version("1.17.0", "1.17.0"), 0);
    assert_eq!(compare_client_version("1.17.0", "1.16.9"), 1);
    assert_eq!(compare_client_version("1.16.9", "1.17.0"), -1);
    assert_eq!(compare_client_version("1.17", "1.17.0"), 0);
    assert_eq!(compare_client_version("2.0.0", "1.99.99"), 1);
    assert_eq!(compare_client_version("", "0.0.0"), 0);
}

#[test]
fn session_ids_are_different_and_shape_valid() {
    let a = new_session_id();
    let b = new_session_id();
    assert_ne!(a, b);
    for id in [&a, &b] {
        assert!(id.starts_with("ses_"));
        assert_eq!(id.len(), 30);
        let rest = &id[4..];
        assert!(rest.chars().all(|c| c.is_ascii_alphanumeric()));
    }
}

#[test]
fn session_id_matches_official_shape() {
    let id = new_opencode_session_id();
    assert!(id.starts_with("ses_"));
    assert_eq!(id.len(), "ses_".len() + 12 + 14);
    let hex_part = &id["ses_".len().."ses_".len() + 12];
    assert!(hex_part.chars().all(|c| c.is_ascii_hexdigit()));
    let alnum_part = &id[id.len() - 14..];
    assert!(alnum_part.chars().all(|c| c.is_ascii_alphanumeric()));
    assert_ne!(id, new_opencode_session_id());
}

#[test]
fn version_normalization_keeps_supported_versions() {
    assert_eq!(normalize_opencode_client_version("1.18.31"), "1.18.31");
    assert_eq!(normalize_opencode_client_version("2.0.0"), "2.0.0");
    assert_eq!(normalize_opencode_client_version("1.16.0"), "1.18.31");
    assert_eq!(normalize_opencode_client_version(""), "1.18.31");
}

#[test]
fn upstream_headers_include_fingerprint_requirements() {
    let headers = build_opencode_upstream_headers("1.18.31");
    assert_eq!(
        headers.get("authorization").map(String::as_str),
        Some("Bearer public")
    );
    let ua = headers.get("user-agent").expect("ua should exist");
    assert!(ua.starts_with("opencode/1.18.31"));
    let sid = headers
        .get("x-session-id")
        .expect("session id should exist");
    assert!(sid.starts_with("ses_"));
}

#[test]
fn body_gets_stream_and_missing_tools() {
    let mut body = json(
        r#"{
            "model": "big-pickle",
            "messages": [{"role": "user", "content": "hi"}],
            "tools": [{"type": "function", "function": {"name": "bash", "parameters": {}}}],
            "stream": false
        }"#,
    );
    assert!(ensure_opencode_chat_request_body(&mut body));
    assert!(matches!(get(&body, "stream"), Some(JsonValue::Bool(true))));
    let names = tool_names(&body);
    for required in ["bash", "glob", "grep", "read"] {
        assert!(
            names.iter().any(|n| n == required),
            "missing {required}: {names:?}"
        );
    }
    assert_eq!(names, vec!["bash", "glob", "grep", "read"]);
}

#[test]
fn body_with_no_tools_gets_all_builtin_tools() {
    let mut body = json(r#"{"model": "m", "messages": [{"role": "user", "content": "hi"}]}"#);
    assert!(ensure_opencode_chat_request_body(&mut body));
    match get(&body, "tools") {
        Some(JsonValue::Array(tools)) => assert_eq!(tools.len(), 4),
        other => panic!("tools should be an array, got {other:?}"),
    }
}

#[test]
fn builtin_tools_are_found_by_function_name() {
    // A function tool named bash is bash: only the three others are added.
    let mut body = json(
        r#"{"tools": [{"type": "function", "function": {"name": "bash"}}]}"#,
    );
    assert!(ensure_opencode_chat_request_body(&mut body));
    assert_eq!(tool_names(&body), vec!["bash", "glob", "grep", "read"]);
    // A tool that is only typed "grep" names no function: all four are added.
    let mut typed = json(r#"{"tools": [{"type": "grep"}]}"#);
    assert!(ensure_opencode_chat_request_body(&mut typed));
    assert_eq!(tool_names(&typed), vec!["bash", "glob", "grep", "read"]);
    match get(&typed, "tools") {
        Some(JsonValue::Array(tools)) => assert_eq!(tools.len(), 5),
        other => panic!("tools should be an array, got {other:?}"),
    }
    // Making sure twice adds nothing more.
    let once = format!("{body:?}");
    assert!(ensure_opencode_chat_request_body(&mut body));
    assert_eq!(format!("{body:?}"), once);
}

#[test]
fn builtin_tool_entry_has_the_documented_shape() {
    let mut body = json(
        r#"{"tools": [{"type": "function", "function": {"name": "bash"}},
            {"type": "function", "function": {"name": "glob"}},
            {"type": "function", "function": {"name": "read"}}]}"#,
    );
    assert!(ensure_opencode_chat_request_body(&mut body));
    match get(&body, "tools") {
        Some(JsonValue::Array(tools)) => {
            assert_eq!(tools.len(), 4);
            let added = &tools[3];
            assert_eq!(text(get(added, "type")), Some("function"));
            let function = get(added, "function").expect("function");
            assert_eq!(text(get(function, "name")), Some("grep"));
            assert_eq!(
                text(get(function, "description")),
                Some("OpenCode built-in tool 'grep'")
            );
            let params = get(function, "parameters").expect("parameters");
            assert_eq!(text(get(params, "type")), Some("object"));
            assert!(matches!(get(params, "properties"), Some(JsonValue::Object(p)) if p.is_empty()));
        }
        other => panic!("tools should be an array, got {other:?}"),
    }
}

#[test]
fn chat_body_that_is_not_an_object_is_left() {
    let mut body = json(r#"[1, 2]"#);
    assert!(!ensure_opencode_chat_request_body(&mut body));
    assert!(matches!(&body, JsonValue::Array(items) if items.len() == 2));
}

#[test]
fn tools_that_are_not_an_array_are_left() {
    let mut body = json(r#"{"tools": "none", "stream": false}"#);
    assert!(ensure_opencode_chat_request_body(&mut body));
    assert_eq!(text(get(&body, "tools")), Some("none"));
    assert!(matches!(get(&body, "stream"), Some(JsonValue::Bool(true))));
}

#[test]
fn version_comparison_reads_leading_digits_only() {
    assert_eq!(compare_client_version("1.18.31-beta", "1.18.31"), 0);
    assert_eq!(compare_client_version("v2.0.0", "0.0.0"), 0);
    assert_eq!(compare_client_version("1.2.3.4", "1.2.3"), 0);
    assert_eq!(compare_client_version("99999999999.0.0", "0.0.0"), 0);
    assert_eq!(compare_client_version("1.18.x", "1.18.0"), 0);
}

#[test]
fn normalized_version_is_trimmed_or_default() {
    assert_eq!(normalize_opencode_client_version("1.20.0 \n"), "1.20.0");
    assert_eq!(normalize_opencode_client_version(" 1.20.0"), DEFAULT_OPENCODE_UA_VERSION);
    assert_eq!(normalize_opencode_client_version("1.17"), "1.17");
    assert_eq!(MIN_OPENCODE_UA_VERSION, "1.17.0");
}

#[test]
fn upstream_user_agent_carries_the_suffix() {
    let headers = build_opencode_upstream_headers("0.1.0");
    assert_eq!(
        headers.get("user-agent").map(String::as_str),
        Some("opencode/1.18.31 ai-sdk/provider-utils/4.0.23 runtime/bun/1.3.14")
    );
    assert!(is_session_shape(headers.get("x-session-id").unwrap()));
}

#[test]
fn session_id_from_bytes_picks_from_the_alphabets() {
    let mut bytes = [0u8; 26];
    for (i, b) in bytes.iter_mut().enumerate() {
        *b = (i * 11) as u8;
    }
    let id = session_id_from_bytes(&bytes);
    // 0,11,22,...,121 % 16 -> 0 b 6 1 c 7 2 d 8 3 e 9
    assert_eq!(&id[..16], "ses_0b61c72d83e9");
    // 132.. % 62 picks from 0-9a-zA-Z
    let expected: String = bytes[12..]
        .iter()
        .map(|b| b"0123456789abcdefghijklmnopqrstuvwxyzABCDEFGHIJKLMNOPQRSTUVWXYZ"[(*b as usize) % 62] as char)
        .collect();
    assert_eq!(&id[16..], expected);
    assert!(is_session_shape(&id));
}

#[test]
fn fallback_bytes_follow_the_time_counter_stream() {
    assert_eq!(
        fallback_session_bytes(1, 0),
        vec![
            65, 47, 134, 45, 218, 55, 214, 84, 82, 3, 71, 62, 44, 36, 189, 88, 209, 12, 217, 219,
            32, 23, 153, 61, 143, 144
        ]
    );
    let b = fallback_session_bytes(1_700_000_000_123_456_789, 3);
    assert_eq!(&b[..6], &[216, 64, 50, 185, 204, 55]);
    assert_ne!(fallback_session_bytes(1_700_000_000_123_456_789, 4), b);
}

#[test]
fn session_id_uses_os_bytes_and_falls_back_to_the_clock() {
    let os: Vec<u8> = (0u8..26).collect();
    assert_eq!(session_id_from_sources(Some(os.clone()), 1, 0), session_id_from_bytes(&os));
    assert_eq!(session_id_from_sources(None, 1, 0), "ses_1f6da764237eIA3qncvxwntZjk");
    assert_eq!(
        session_id_from_sources(None, 1_700_000_000_123_456_789, 3),
        "ses_8029c70c5b69h5oc3xI3Wq913v"
    );
    // Bytes of another length are not used.
    assert_eq!(session_bytes(Some(vec![7; 25]), 1, 0), fallback_session_bytes(1, 0));
    assert_eq!(session_bytes(Some(os.clone()), 1, 0), os);
}
