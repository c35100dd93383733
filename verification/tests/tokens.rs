use gateway::json::{JsonMember, JsonNumber, JsonValue};
use gateway::tokens::{extract_token_usage, sse_data_payloads, trim_ascii, TokenUsage};

fn to_json(v: &serde_json::Value) -> JsonValue {
    match v {
        serde_json::Value::Null => JsonValue::Null,
        serde_json::Value::Bool(b) => JsonValue::Bool(*b),
        serde_json::Value::Number(n) => JsonValue::Number(JsonNumber { text: n.to_string(), int: n.as_i64() }),
        serde_json::Value::String(s) => JsonValue::String(s.clone()),
        serde_json::Value::Array(a) => JsonValue::Array(a.iter().map(to_json).collect()),
        serde_json::Value::Object(m) => JsonValue::object(
            m.iter()
                .map(|(k, v)| JsonMember { key: k.clone(), value: to_json(v) })
                .collect(),
        ),
    }
}

fn usage_of_body(body: &[u8]) -> TokenUsage {
    let parsed = serde_json::from_slice::<serde_json::Value>(body).ok().map(|v| to_json(&v));
    let events: Vec<Option<JsonValue>> = sse_data_payloads(body)
        .iter()
        .map(|p| serde_json::from_slice::<serde_json::Value>(p).ok().map(|v| to_json(&v)))
        .collect();
    extract_token_usage(body, parsed.as_ref(), &events)
}

#[test]
fn parses_openai_chat() {
    let body = br#"{"id":"x","usage":{"prompt_tokens":11,"completion_tokens":5,"total_tokens":16}}"#;
    let u = usage_of_body(body);
    assert_eq!(u.prompt, Some(11));
    assert_eq!(u.completion, Some(5));
    assert_eq!(u.total_tokens(), Some(16));
}

#[test]
fn parses_anthropic_messages() {
    let body = br#"{"id":"x","usage":{"input_tokens":12,"output_tokens":7,"cache_read_input_tokens":3}}"#;
    let u = usage_of_body(body);
    assert_eq!(u.prompt, Some(12));
    assert_eq!(u.completion, Some(7));
    assert_eq!(u.cached, Some(3));
    assert_eq!(u.total_tokens(), Some(19));
}

#[test]
fn openai_cached_tokens_from_details() {
    let body = br#"{"usage":{"prompt_tokens":100,"completion_tokens":1,"prompt_tokens_details":{"cached_tokens":40}}}"#;
    let u = usage_of_body(body);
    assert_eq!(u.cached, Some(40));
    assert_eq!(u.total, None);
    assert_eq!(u.total_tokens(), Some(101));
}

#[test]
fn empty_body_has_no_usage() {
    let u = usage_of_body(b"");
    assert_eq!(u, TokenUsage { prompt: None, completion: None, cached: None, total: None });
    assert_eq!(u.total_tokens(), None);
}

#[test]
fn stream_events_merge_in_order() {
    let body = b"data: {\"usage\":{\"input_tokens\":9}}\r\n\ndata: [DONE]\ndata: {\"usage\":{\"output_tokens\":4}}\n: comment\n";
    let u = usage_of_body(body);
    assert_eq!(u.prompt, Some(9));
    assert_eq!(u.completion, Some(4));
    assert_eq!(u.total_tokens(), Some(13));
}

#[test]
fn sse_payloads_skip_done_and_other_lines() {
    let body = b"event: x\ndata: {\"a\":1}\n  data: two \ndata: [DONE]\n";
    let ps = sse_data_payloads(body);
    assert_eq!(ps, vec![b"{\"a\":1}".to_vec(), b"two".to_vec()]);
}

#[test]
fn trims_spaces_tabs_and_carriage_returns() {
    assert_eq!(trim_ascii(b" \t abc\r"), b"abc".to_vec());
    assert_eq!(trim_ascii(b"\n x"), b"\n x".to_vec());
}

