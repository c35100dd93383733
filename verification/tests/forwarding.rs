use gateway::cache::{CachedChunk, CachedResponse};
use gateway::config::{
    AdminConfig, AppConfig, CacheConfig, ObservabilityConfig, ProviderConfig, RouteCacheConfig,
    RouteConfig, RouteMatch, RouteRetryConfig, RouteTarget, ServerConfig, StorageConfig,
};
use gateway::headers::{Header, HeaderList};
use gateway::json::{JsonMember, JsonValue};
use gateway::providers::{
    build_auth_injector, credential_ref, header_value, resolve_credential, resolve_provider,
    AuthKind, CredentialRef, find_provider, ResolvedProvider};
use gateway::error::GatewayError;
use gateway::proxy::{
    build_url, cached_body_preview, captured_body_to_string, clip_body_for_log, extract_model,
    filter_request_headers, filter_response_headers, find_route, upstream_headers, CacheCapture,
    Capture,
};

fn headers(pairs: &[(&str, &str)]) -> HeaderList {
    HeaderList {
        entries: pairs
            .iter()
            .map(|(k, v)| Header { name: k.to_string(), value: v.as_bytes().to_vec() })
            .collect(),
    }
}

fn pairs(h: &HeaderList) -> Vec<(String, String)> {
    h.entries
        .iter()
        .map(|e| (e.name.clone(), String::from_utf8(e.value.clone()).unwrap()))
        .collect()
}

#[test]
fn urls_join_base_path_and_query() {
    assert_eq!(build_url("https://api.x.com//", "v1/chat", None).unwrap(), "https://api.x.com/v1/chat");
    assert_eq!(build_url("https://api.x.com", "/v1/chat", Some("a=1")).unwrap(), "https://api.x.com/v1/chat?a=1");
    assert_eq!(build_url("https://api.x.com", "/v1", Some("")).unwrap(), "https://api.x.com/v1");
}

#[test]
fn request_headers_drop_hop_by_hop_auth_and_gateway_headers() {
    let h = headers(&[
        ("host", "gw"),
        ("authorization", "Bearer sk-gw-live-x"),
        ("content-type", "application/json"),
        ("x-gateway-cache", "bypass"),
        ("connection", "keep-alive"),
        ("accept", "*/*"),
    ]);
    assert_eq!(
        pairs(&filter_request_headers(&h)),
        vec![
            ("content-type".to_string(), "application/json".to_string()),
            ("accept".to_string(), "*/*".to_string())
        ]
    );
}

#[test]
fn response_headers_drop_transport_headers() {
    let h = headers(&[("content-encoding", "gzip"), ("content-type", "text/event-stream"), ("content-length", "5")]);
    assert_eq!(pairs(&filter_response_headers(&h)), vec![("content-type".to_string(), "text/event-stream".to_string())]);
}

fn provider_cfg(kind: Option<&str>, credential: &str, extra: Vec<(&str, &str)>) -> ProviderConfig {
    ProviderConfig {
        kind: kind.map(|k| k.to_string()),
        base_url: "https://up.example".into(),
        credential: credential.into(),
        headers: extra.into_iter().map(|(k, v)| (k.to_string(), v.to_string())).collect(),
    }
}

#[test]
fn openai_auth_replaces_client_auth() {
    let p = resolve_provider("openai", &provider_cfg(None, "sk-up", vec![("X-Org", "acme"), ("bad name", "v")]), &vec![], None).unwrap();
    let h = headers(&[("authorization", "Bearer sk-gw-live-x"), ("host", "gw"), ("user-agent", "t")]);
    assert_eq!(
        pairs(&upstream_headers(&h, &p)),
        vec![
            ("user-agent".to_string(), "t".to_string()),
            ("authorization".to_string(), "Bearer sk-up".to_string()),
            ("api-key".to_string(), "sk-up".to_string()),
            ("x-org".to_string(), "acme".to_string())
        ]
    );
}

#[test]
fn anthropic_auth_keeps_client_version() {
    let mut h = headers(&[("anthropic-version", "2024-01-01")]);
    AuthKind::Anthropic.inject(&mut h, "sk-ant");
    assert_eq!(
        pairs(&h),
        vec![
            ("anthropic-version".to_string(), "2024-01-01".to_string()),
            ("x-api-key".to_string(), "sk-ant".to_string())
        ]
    );
    let mut h = HeaderList::new();
    AuthKind::Anthropic.inject(&mut h, "sk-ant");
    assert_eq!(
        pairs(&h),
        vec![
            ("x-api-key".to_string(), "sk-ant".to_string()),
            ("anthropic-version".to_string(), "2023-06-01".to_string())
        ]
    );
}

#[test]
fn header_insert_replaces_in_place() {
    let mut h = headers(&[("a", "1"), ("b", "2"), ("a", "3")]);
    h.insert("a", b"9".to_vec());
    assert_eq!(pairs(&h), vec![("a".to_string(), "9".to_string()), ("b".to_string(), "2".to_string())]);
    h.remove("a");
    assert_eq!(pairs(&h), vec![("b".to_string(), "2".to_string())]);
    assert!(h.contains("b"));
    assert!(!h.contains("a"));
}

#[test]
fn header_values_reject_control_bytes() {
    assert_eq!(header_value("ok\tvalue"), Some(b"ok\tvalue".to_vec()));
    assert_eq!(header_value("bad\nvalue"), None);
    assert_eq!(header_value("caf\u{e9}"), Some("caf\u{e9}".as_bytes().to_vec()));
}

#[test]
fn adapters_and_credentials() {
    assert_eq!(build_auth_injector("openai"), Ok(AuthKind::OpenAi));
    assert_eq!(build_auth_injector("gemini"), Err(GatewayError::ProviderUnknown("gemini".into())));
    match credential_ref(&provider_cfg(None, "env://OPENAI_KEY", vec![])).unwrap() {
        CredentialRef::Env(v) => assert_eq!(v, "OPENAI_KEY"),
        _ => panic!("expected env"),
    }
    assert_eq!(
        resolve_credential(&provider_cfg(None, "env://", vec![]), &vec![], None),
        Err(GatewayError::Internal("provider credential env:// reference is missing a var name".into()))
    );
    assert_eq!(
        resolve_credential(&provider_cfg(None, "", vec![]), &vec![], None),
        Err(GatewayError::Internal("provider credential is empty".into()))
    );
    assert_eq!(
        resolve_credential(&provider_cfg(None, "env://K", vec![]), &vec![], None),
        Err(GatewayError::Internal("env var K not set for provider credential".into()))
    );
    let overrides = vec![("K".to_string(), "from-override".to_string())];
    assert_eq!(resolve_credential(&provider_cfg(None, "env://K", vec![]), &overrides, Some("from-env".into())), Ok("from-override".to_string()));
    assert_eq!(resolve_credential(&provider_cfg(None, "env://K", vec![]), &vec![], Some("from-env".into())), Ok("from-env".to_string()));
    assert_eq!(resolve_credential(&provider_cfg(None, "literal", vec![]), &vec![], None), Ok("literal".to_string()));
    assert!(matches!(
        resolve_provider("doubao", &provider_cfg(None, "x", vec![]), &vec![], None),
        Err(GatewayError::ProviderUnknown(k)) if k == "doubao"
    ));
}

fn cfg_with_routes(providers: &[&str]) -> AppConfig {
    AppConfig {
        server: ServerConfig::default(),
        storage: StorageConfig::Memory { cache: CacheConfig::default() },
        admin: AdminConfig::default(),
        providers: vec![],
        routes: providers
            .iter()
            .map(|p| RouteConfig {
                match_: RouteMatch { namespace: Some("ns".into()), model_prefix: None },
                primary: RouteTarget { provider: p.to_string(), model: None, trigger: vec![] },
                cache: RouteCacheConfig::default(),
                retry: RouteRetryConfig::default(),
                fallbacks: vec![],
            })
            .collect(),
        limits: vec![],
        observability: ObservabilityConfig::default(),
        gateway_keys: vec![],
    }
}

#[test]
fn first_route_for_provider_wins() {
    let cfg = cfg_with_routes(&["anthropic", "openai", "openai"]);
    assert_eq!(find_route(&cfg, "openai"), Some(1));
    assert_eq!(find_route(&cfg, "mistral"), None);
}

#[test]
fn request_bodies_for_logs() {
    assert_eq!(clip_body_for_log(b""), None);
    assert_eq!(clip_body_for_log(b"{\"a\":1}"), Some("{\"a\":1}".to_string()));
    assert_eq!(clip_body_for_log(&[0xff, 0xfe]), Some("[binary 2 bytes]".to_string()));
    let big = vec![b'x'; 70_000];
    let clipped = clip_body_for_log(&big).unwrap();
    assert_eq!(clipped, "x".repeat(65_536) + "\n…[truncated]");
}

#[test]
fn captured_bodies_for_logs() {
    assert_eq!(captured_body_to_string(b"", true), None);
    assert_eq!(captured_body_to_string(b"hi", false), Some("hi".to_string()));
    assert_eq!(captured_body_to_string(b"hi", true), Some("hi\n…[truncated]".to_string()));
    assert_eq!(captured_body_to_string(&[0xc3], false), Some("[binary 1 bytes]".to_string()));
}

#[test]
fn model_comes_from_json_body() {
    let body = br#"{"model":"gpt-4o"}"#;
    let parsed = JsonValue::object(vec![JsonMember { key: "model".into(), value: JsonValue::String("gpt-4o".into()) }]);
    assert_eq!(extract_model(body, Some(&parsed)), Some("gpt-4o".to_string()));
    assert_eq!(extract_model(b"", Some(&parsed)), None);
    assert_eq!(extract_model(b"nope", None), None);
    let other = JsonValue::object(vec![JsonMember { key: "model".into(), value: JsonValue::Bool(true) }]);
    assert_eq!(extract_model(b"{}", Some(&other)), None);
}

#[test]
fn capture_keeps_a_prefix_and_flags_the_rest() {
    let mut c = Capture::new(5);
    c.absorb(b"abc");
    assert!(!c.truncated());
    c.absorb(b"defg");
    assert_eq!(c.captured(), b"abcde");
    assert!(c.truncated());
    c.absorb(b"");
    let (bytes, truncated) = c.into_captured();
    assert_eq!(bytes, b"abcde".to_vec());
    assert!(truncated);
}

#[test]
fn cache_capture_gives_up_past_two_mib() {
    let c = CacheCapture::new(true).absorb(b"ab").absorb(b"cd");
    let chunks = c.into_chunks().unwrap();
    assert_eq!(chunks.iter().map(|c| c.data.clone()).collect::<Vec<_>>(), vec![b"ab".to_vec(), b"cd".to_vec()]);
    let big = vec![0u8; 2 * 1024 * 1024];
    let c = CacheCapture::new(true).absorb(&big);
    let c = c.absorb(b"x");
    assert!(c.into_chunks().is_none());
    assert!(CacheCapture::new(false).absorb(b"x").into_chunks().is_none());
}

#[test]
fn cached_preview_joins_text_chunks() {
    let r = CachedResponse {
        status: 200,
        headers: vec![],
        chunks: vec![CachedChunk { data: b"hello ".to_vec() }, CachedChunk { data: vec![0xff] }, CachedChunk { data: b"world".to_vec() }],
        finished_at_ms: 0,
    };
    assert_eq!(cached_body_preview(&r), Some("hello world".to_string()));
    let empty = CachedResponse { status: 200, headers: vec![], chunks: vec![], finished_at_ms: 0 };
    assert_eq!(cached_body_preview(&empty), None);
}

#[test]
fn upstream_path_has_one_leading_slash() {
    assert_eq!(gateway::proxy::upstream_path("v1/chat"), "/v1/chat");
    assert_eq!(gateway::proxy::upstream_path("///v1"), "/v1");
    assert_eq!(gateway::proxy::upstream_path(""), "/");
}

#[test]
fn provider_lookup_by_name() {
    let p = |url: &str| ResolvedProvider {
        base_url: url.to_string(),
        api_key: "k".to_string(),
        auth: AuthKind::OpenAi,
        extra_headers: vec![],
    };
    let ps = vec![("openai".to_string(), p("https://a")), ("anthropic".to_string(), p("https://b"))];
    assert_eq!(find_provider(&ps, "anthropic"), Ok(1));
    assert_eq!(find_provider(&ps, "mistral"), Err(GatewayError::ProviderUnknown("mistral".to_string())));
}
