use gateway::json::{JsonMember, JsonNumber, JsonValue};
use gateway::preview::{clip_middle, request_preview};
use gateway::text::normalize_ws;

fn to_json(v: &serde_json::Value) -> JsonValue {
    match v {
        serde_json::Value::Null => JsonValue::Null,
        serde_json::Value::Bool(b) => JsonValue::Bool(*b),
        serde_json::Value::Number(n) => JsonValue::Number(JsonNumber { text: n.to_string(), int: n.as_i64() }),
        serde_json::Value::String(s) => JsonValue::String(s.clone()),
        serde_json::Value::Array(a) => JsonValue::Array(a.iter().map(to_json).collect()),
        serde_json::Value::Object(m) => JsonValue::object(
            m.iter()
                .map(|(k, v)| JsonMember { key: k.clone(), value: to_json(v) })
                .collect(),
        ),
    }
}

fn preview(body: &str) -> Option<String> {
    let parsed = serde_json::from_str::<serde_json::Value>(body).ok().map(|v| to_json(&v));
    request_preview(body, parsed.as_ref())
}

#[test]
fn samples_each_message_head_and_tail() {
    let long = "a".repeat(30) + &"b".repeat(30);
    let body = format!(
        r#"{{"messages":[{{"role":"system","content":"be brief"}},{{"role":"user","content":"{long}"}}]}}"#
    );
    let p = preview(&body).unwrap();
    assert!(p.starts_with("system: be brief | user: "));
    assert!(p.contains('…'));
    assert!(p.contains(&"a".repeat(24)));
    assert!(p.ends_with(&"b".repeat(24)));
}

#[test]
fn handles_block_array_content_and_cjk() {
    let body = r#"{"messages":[{"role":"user","content":[{"type":"text","text":"你好世界,这是一段足够长的中文文本,用来验证按字符截断不会在多字节边界崩溃,中间再多垫一些字符让总长超过头尾预算之和,结尾在这里"}]}]}"#;
    let p = preview(body).unwrap();
    assert!(p.starts_with("user: 你好世界"));
    assert!(p.contains('…'));
    assert!(p.ends_with("结尾在这里"));
}

#[test]
fn falls_back_to_raw_clip_for_non_chat_bodies() {
    let p = preview(r#"{"input":"embed me","model":"text-embedding-3-small"}"#).unwrap();
    assert!(p.contains("embed me"));
    assert!(preview("not json at all").is_some());
}

#[test]
fn short_text_is_not_clipped() {
    assert_eq!(clip_middle("abcdef", 2, 3), "abcdef");
    assert_eq!(clip_middle("abcdefg", 2, 3), "ab…efg");
}

#[test]
fn whitespace_runs_collapse() {
    assert_eq!(normalize_ws("  a \n\t b  "), "a b");
    assert_eq!(normalize_ws("   "), "");
}

#[test]
fn empty_body_has_no_preview() {
    assert_eq!(preview(""), None);
}

#[test]
fn messages_without_text_fall_back_to_body() {
    let p = preview(r#"{"messages":[{"role":"user","content":42}]}"#).unwrap();
    assert!(p.contains("messages"));
}

#[test]
fn missing_role_is_question_mark() {
    let p = preview(r#"{"messages":[{"content":"hi"}]}"#).unwrap();
    assert_eq!(p, "?: hi");
}

#[test]
fn long_preview_is_capped_at_400_chars() {
    let mut msgs = Vec::new();
    for _ in 0..40 {
        msgs.push(format!(r#"{{"role":"user","content":"{}"}}"#, "x".repeat(40)));
    }
    let body = format!(r#"{{"messages":[{}]}}"#, msgs.join(","));
    let p = preview(&body).unwrap();
    assert_eq!(p.chars().count(), 401);
    assert!(p.ends_with('…'));
}
