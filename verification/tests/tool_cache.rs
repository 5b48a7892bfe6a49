use semcache::cache::tool_cache::{build_tool_cache_key, normalize_path, stamp_from, PathStamp};
use semcache::hash::{chunk_id, fingerprint_workspace, hash_bytes, hash_string};
use semcache::json::{canonical_json, key_less, to_json_text, JsonMember, JsonValue};

fn member(key: &str, value: JsonValue) -> JsonMember {
    JsonMember { key: key.to_string(), value }
}

fn number(n: u64) -> JsonValue {
    JsonValue::Number(n.to_string())
}

fn text(s: &str) -> JsonValue {
    JsonValue::Text(s.to_string())
}

/// The value that `serde_json` holds for `value`.
fn to_serde(value: &JsonValue) -> serde_json::Value {
    match value {
        JsonValue::Null => serde_json::Value::Null,
        JsonValue::Bool(b) => serde_json::Value::Bool(*b),
        JsonValue::Number(text) => serde_json::from_str(text).expect("number"),
        JsonValue::Text(text) => serde_json::Value::String(text.clone()),
        JsonValue::Array(items) => serde_json::Value::Array(items.iter().map(to_serde).collect()),
        JsonValue::Object(members) => {
            let mut map = serde_json::Map::new();
            for m in members {
                map.insert(m.key.clone(), to_serde(&m.value));
            }
            serde_json::Value::Object(map)
        }
    }
}

#[test]
fn canonical_json_sorts_keys() {
    let value_a = JsonValue::Object(vec![member("b", JsonValue::Bool(true)), member("a", number(1))]);
    let value_b = JsonValue::Object(vec![member("a", number(1)), member("b", JsonValue::Bool(true))]);
    let stamp = PathStamp { mtime_nanos: 1, size_bytes: 2 };
    let key_a = build_tool_cache_key("read_file", &value_a, "/tmp", "/tmp/a", stamp);
    let key_b = build_tool_cache_key("read_file", &value_b, "/tmp", "/tmp/a", stamp);

    assert_eq!(key_a, key_b);
}

#[test]
fn cache_key_changes_with_path_stamp() {
    let args = JsonValue::Object(vec![member("file_path", text("/tmp/a")), member("offset", number(1))]);
    let key_a = build_tool_cache_key(
        "read_file",
        &args,
        "/tmp",
        "/tmp/a",
        PathStamp { mtime_nanos: 10, size_bytes: 20 },
    );
    let key_b = build_tool_cache_key(
        "read_file",
        &args,
        "/tmp",
        "/tmp/a",
        PathStamp { mtime_nanos: 11, size_bytes: 20 },
    );

    assert_ne!(key_a, key_b);
}

#[test]
fn cache_key_is_the_hash_of_the_raw_key() {
    let args = JsonValue::Object(vec![member("b", JsonValue::Bool(true)), member("a", number(1))]);
    let key = build_tool_cache_key(
        "read_file",
        &args,
        "C:\\work",
        "C:\\work\\a.txt",
        PathStamp { mtime_nanos: 1, size_bytes: 2 },
    );
    let raw = "read_file|{\"a\":1,\"b\":true}|C:/work|C:/work/a.txt|1|2";
    assert_eq!(key, hash_string(raw));
    assert_eq!(key.len(), 64);
    assert!(key.chars().all(|c| c.is_ascii_hexdigit() && !c.is_ascii_uppercase()));
}

#[test]
fn hashes_are_sha256_in_lower_case_hex() {
    assert_eq!(
        hash_bytes(b""),
        "e3b0c44298fc1c149afbf4c8996fb92427ae41e4649b934ca495991b7852b855"
    );
    assert_eq!(
        hash_string("abc"),
        "ba7816bf8f01cfea414140de5dae2223b00361a396177a9cb410ff61f20015ad"
    );
    assert_eq!(hash_bytes(b"abc"), hash_string("abc"));
    assert_eq!(fingerprint_workspace("abc"), hash_string("abc"));
    assert_ne!(hash_string("abc"), hash_string("abd"));
}

#[test]
fn chunk_id_hashes_path_lines_and_text_hash() {
    let text_hash = hash_string("one\ntwo");
    let id = chunk_id("src/a.rs", 1, 2, &text_hash);
    assert_eq!(id, hash_string(&format!("src/a.rs:1-2:{text_hash}")));
    assert_ne!(id, chunk_id("src/a.rs", 1, 3, &text_hash));
    assert_eq!(
        chunk_id("p", 10, 120, "h"),
        hash_string("p:10-120:h")
    );
}

#[test]
fn normalize_path_turns_backslashes() {
    assert_eq!(normalize_path("a\\b\\c"), "a/b/c");
    assert_eq!(normalize_path("/tmp/a"), "/tmp/a");
    assert_eq!(normalize_path(""), "");
    assert_eq!(normalize_path("\u{e9}\\\u{4e2d}"), "\u{e9}/\u{4e2d}");
}

#[test]
fn canonical_json_orders_nested_objects_and_keeps_arrays() {
    let value = JsonValue::Object(vec![
        member("z", JsonValue::Array(vec![number(3), number(1), number(2)])),
        member("m", JsonValue::Object(vec![member("y", JsonValue::Null), member("x", text("q"))])),
        member("a", JsonValue::Bool(false)),
    ]);
    let ordered = canonical_json(&value);
    assert_eq!(
        to_json_text(&ordered),
        "{\"a\":false,\"m\":{\"x\":\"q\",\"y\":null},\"z\":[3,1,2]}"
    );
    // The text is what serde_json writes for the same value.
    assert_eq!(to_json_text(&ordered), serde_json::to_string(&to_serde(&value)).expect("text"));
}

#[test]
fn json_text_escapes_strings_as_serde_json_does() {
    let value = JsonValue::Array(vec![
        text("plain"),
        text("quote\" slash\\ newline\n tab\t bell\u{7} \u{e9}"),
        JsonValue::Null,
        JsonValue::Bool(true),
        number(42),
        JsonValue::Array(vec![]),
        JsonValue::Object(vec![]),
    ]);
    let written = to_json_text(&value);
    assert_eq!(written, serde_json::to_string(&to_serde(&value)).expect("text"));
    assert!(written.starts_with("[\"plain\",\"quote\\\" slash\\\\ newline\\n tab\\t bell\\u0007 \u{e9}\","));
    assert!(written.ends_with("null,true,42,[],{}]"));
}

#[test]
fn keys_are_ordered_by_their_bytes() {
    assert!(key_less("a", "b"));
    assert!(!key_less("b", "a"));
    assert!(!key_less("a", "a"));
    assert!(key_less("", "a"));
    assert!(key_less("a", "aa"));
    assert!(key_less("Z", "a"));
    assert!(key_less("a", "\u{e9}"));
    assert_eq!(key_less("ab", "b"), "ab" < "b");
    let value = JsonValue::Object(vec![
        member("b", number(1)),
        member("B", number(2)),
        member("", number(3)),
        member("aa", number(4)),
        member("a", number(5)),
    ]);
    assert_eq!(
        to_json_text(&canonical_json(&value)),
        "{\"\":3,\"B\":2,\"a\":5,\"aa\":4,\"b\":1}"
    );
}

#[test]
fn cache_key_ignores_the_order_of_nested_members() {
    let value_a = JsonValue::Object(vec![
        member("outer", JsonValue::Array(vec![JsonValue::Object(vec![member("y", number(2)), member("x", number(1))])])),
        member("a", text("v")),
    ]);
    let value_b = JsonValue::Object(vec![
        member("a", text("v")),
        member("outer", JsonValue::Array(vec![JsonValue::Object(vec![member("x", number(1)), member("y", number(2))])])),
    ]);
    let stamp = PathStamp { mtime_nanos: 1, size_bytes: 2 };
    assert_eq!(
        build_tool_cache_key("t", &value_a, "/w", "/w/a", stamp),
        build_tool_cache_key("t", &value_b, "/w", "/w/a", stamp)
    );
    // The order of an array is part of the value.
    let array_a = JsonValue::Array(vec![number(1), number(2)]);
    let array_b = JsonValue::Array(vec![number(2), number(1)]);
    assert_ne!(
        build_tool_cache_key("t", &array_a, "/w", "/w/a", stamp),
        build_tool_cache_key("t", &array_b, "/w", "/w/a", stamp)
    );
    // So is the size that the stamp bears.
    assert_ne!(
        build_tool_cache_key("t", &array_a, "/w", "/w/a", stamp),
        build_tool_cache_key("t", &array_a, "/w", "/w/a", PathStamp { mtime_nanos: 1, size_bytes: 3 })
    );
}

#[test]
fn a_stamp_without_a_time_counts_from_the_epoch() {
    assert_eq!(stamp_from(Some(17), 3), PathStamp { mtime_nanos: 17, size_bytes: 3 });
    assert_eq!(stamp_from(None, 3), PathStamp { mtime_nanos: 0, size_bytes: 3 });
}
