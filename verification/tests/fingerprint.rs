use gateway::fingerprint::{fingerprint, FingerprintInputs};
use gateway::json::{is_canonical, JsonMember, JsonNumber, JsonValue};

fn to_json(v: &serde_json::Value) -> JsonValue {
    match v {
        serde_json::Value::Null => JsonValue::Null,
        serde_json::Value::Bool(b) => JsonValue::Bool(*b),
        serde_json::Value::Number(n) => JsonValue::Number(JsonNumber { text: n.to_string(), int: n.as_i64() }),
        serde_json::Value::String(s) => JsonValue::String(s.clone()),
        serde_json::Value::Array(a) => JsonValue::Array(a.iter().map(to_json).collect()),
        serde_json::Value::Object(m) => JsonValue::object(
            m.iter()
                .map(|(k, v)| JsonMember { key: k.clone(), value: to_json(v) })
                .collect(),
        ),
    }
}

fn fp(namespace: &str, endpoint: &str, body: &[u8]) -> String {
    let parsed: Option<serde_json::Value> = serde_json::from_slice(body).ok();
    let json = parsed.as_ref().map(to_json);
    fingerprint(&FingerprintInputs {
        namespace,
        endpoint,
        body,
        json_body: json.as_ref(),
        cache_scope: None,
    })
}

#[test]
fn same_inputs_same_fingerprint() {
    let body = br#"{"model":"gpt-4o-mini","messages":[{"role":"user","content":"hi"}],"temperature":0}"#;
    let a = fp("openai", "/v1/chat/completions", body);
    let b = fp("openai", "/v1/chat/completions", body);
    assert_eq!(a, b);
}

#[test]
fn object_field_order_does_not_change_fingerprint() {
    let b1 = br#"{"model":"gpt-4o","input":"hi","instructions":"be brief"}"#;
    let b2 = br#"{"instructions":"be brief","input":"hi","model":"gpt-4o"}"#;
    assert_eq!(fp("openai", "/v1/responses", b1), fp("openai", "/v1/responses", b2));
}

#[test]
fn strings_with_json_delimiters_do_not_collide() {
    let one_string = br#"["a\",\"b"]"#;
    let two_strings = br#"["a","b"]"#;
    assert_ne!(fp("openai", "/v1/responses", one_string), fp("openai", "/v1/responses", two_strings));
}

#[test]
fn any_request_field_change_busts_fingerprint() {
    let b1 = br#"{"model":"gpt-4o","messages":[{"role":"user","content":"hi"}],"user":"u1"}"#;
    let b2 = br#"{"model":"gpt-4o","messages":[{"role":"user","content":"hi"}],"user":"u2"}"#;
    assert_ne!(fp("openai", "/v1/chat/completions", b1), fp("openai", "/v1/chat/completions", b2));
}

#[test]
fn temperature_change_busts_fingerprint() {
    let b1 = br#"{"model":"gpt-4o","messages":[{"role":"user","content":"hi"}],"temperature":0}"#;
    let b2 = br#"{"model":"gpt-4o","messages":[{"role":"user","content":"hi"}],"temperature":0.7}"#;
    assert_ne!(fp("openai", "/v1/chat/completions", b1), fp("openai", "/v1/chat/completions", b2));
}

#[test]
fn responses_semantic_fields_bust_fingerprint() {
    let base_text = r#"{"model":"gpt-5","input":"hello","instructions":"be brief","previous_response_id":"resp_1","reasoning":{"effort":"low"},"text":{"verbosity":"low"},"max_output_tokens":100,"stream":false}"#;
    let base: serde_json::Value = serde_json::from_str(base_text).unwrap();
    let replacements: Vec<(&str, serde_json::Value)> = vec![
        ("instructions", serde_json::Value::String("be detailed".to_string())),
        ("previous_response_id", serde_json::Value::String("resp_2".to_string())),
        ("reasoning", serde_json::from_str(r#"{"effort":"high"}"#).unwrap()),
        ("text", serde_json::from_str(r#"{"verbosity":"high"}"#).unwrap()),
        ("max_output_tokens", serde_json::Value::from(200)),
        ("stream", serde_json::Value::Bool(true)),
    ];
    for (field, replacement) in replacements {
        let mut changed = base.clone();
        changed[field] = replacement;
        let original_body = serde_json::to_vec(&base).unwrap();
        let changed_body = serde_json::to_vec(&changed).unwrap();
        let original = fp("openai", "/v1/responses", &original_body);
        let changed = fp("openai", "/v1/responses", &changed_body);
        assert_ne!(original, changed, "field {field} must affect cache key");
    }
}

#[test]
fn fingerprint_is_64_lowercase_hex() {
    let f = fp("openai", "/v1/chat/completions", b"{}");
    assert_eq!(f.len(), 64);
    assert!(f.chars().all(|c| c.is_ascii_digit() || ('a'..='f').contains(&c)));
}

#[test]
fn fingerprint_is_not_the_preimage() {
    let f = fp("openai", "/v1/chat/completions", b"not json");
    assert!(!f.contains("openai"));
    assert_eq!(f, fp("openai", "/v1/chat/completions", b"not json"));
}

#[test]
fn cache_scope_changes_fingerprint() {
    let body = br#"{"model":"gpt-4o"}"#;
    let parsed: serde_json::Value = serde_json::from_slice(body).unwrap();
    let json = to_json(&parsed);
    let a = fingerprint(&FingerprintInputs { namespace: "openai", endpoint: "/v1/x", body, json_body: Some(&json), cache_scope: None });
    let b = fingerprint(&FingerprintInputs { namespace: "openai", endpoint: "/v1/x", body, json_body: Some(&json), cache_scope: Some("tenant-a") });
    assert_ne!(a, b);
}

#[test]
fn namespace_and_endpoint_are_separated() {
    assert_ne!(fp("ab", "c", b"x"), fp("a", "bc", b"x"));
}

#[test]
fn duplicate_keys_keep_last_value() {
    let v = JsonValue::object(vec![
        JsonMember { key: "a".into(), value: JsonValue::Bool(true) },
        JsonMember { key: "a".into(), value: JsonValue::Bool(false) },
    ]);
    match &v {
        JsonValue::Object(ms) => {
            assert_eq!(ms.len(), 1);
            assert!(matches!(ms[0].value, JsonValue::Bool(false)));
        }
        _ => panic!("expected object"),
    }
}

#[test]
fn parsed_objects_are_canonical() {
    let parsed: serde_json::Value = serde_json::from_slice(br#"{"b":1,"a":{"d":2,"c":[{"y":1,"x":2}]}}"#).unwrap();
    assert!(is_canonical(&to_json(&parsed)));
    let unsorted = JsonValue::Object(vec![
        JsonMember { key: "b".into(), value: JsonValue::Null },
        JsonMember { key: "a".into(), value: JsonValue::Null },
    ]);
    assert!(!is_canonical(&unsorted));
    let nested = JsonValue::Array(vec![unsorted]);
    assert!(!is_canonical(&nested));
}
