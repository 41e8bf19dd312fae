use codex_logic::json::tool_schema_key;
use codex_logic::json::tool_schema_members;
use codex_logic::key_order::key_less;
use codex_logic::text::is_blank;

#[test]
fn tool_schema_keeps_only_tool_keys() {
    let schema: serde_json::Value = serde_json::from_str(
        r##"{"$schema":"https://json-schema.org/draft/2019-09/schema","title":"SearchQueryOnlyCommands","type":"object","properties":{"search_query":{"type":"array"},"response_length":{"type":"string"}},"required":[],"$defs":{"q":{}}}"##,
    )
    .expect("valid schema");
    let serde_json::Value::Object(schema) = schema else {
        panic!("schema is an object");
    };
    let tool = tool_schema_members(schema);
    let keys: Vec<&String> = tool.keys().collect();
    assert_eq!(keys, vec!["$defs", "properties", "required", "type"]);
    let properties = tool["properties"].as_object().expect("properties object");
    assert!(properties.contains_key("search_query"));
    assert!(properties.contains_key("response_length"));
    assert!(!properties.contains_key("open"));
    assert_eq!(tool["type"], serde_json::Value::String("object".to_string()));
}

#[test]
fn tool_schema_key_list() {
    for key in ["properties", "required", "type", "additionalProperties", "$defs", "definitions"] {
        assert!(tool_schema_key(key));
    }
    for key in ["title", "$schema", "description", "Properties"] {
        assert!(!tool_schema_key(key));
    }
}

#[test]
fn blank_text() {
    assert!(is_blank(""));
    assert!(is_blank(" \t\n\r\u{A0}\u{3000}"));
    assert!(!is_blank("  {} "));
}

#[test]
fn white_space_is_what_std_trims() {
    for code in 0u32..=0x10FFFF {
        if let Some(c) = char::from_u32(code) {
            let text = c.to_string();
            assert_eq!(is_blank(&text), text.trim().is_empty(), "character U+{code:04X}");
        }
    }
}

#[test]
fn key_order_is_string_order() {
    let mut keys = vec!["b", "a", "ab", "", "é", "z", "B"];
    for x in &keys {
        for y in &keys {
            assert_eq!(key_less(x, y), x < y);
        }
    }
    keys.sort();
    assert_eq!(keys[0], "");
}
