use gateway::config::{
    default_cache_ttl, default_initial_backoff_ms, default_max_attempts, AdminConfig, AppConfig,
    CacheConfig, GatewayKeyConfig, NamedProvider, ObservabilityConfig, ProviderConfig,
    RouteCacheConfig, RouteConfig, RouteMatch, RouteRetryConfig, RouteTarget, ServerConfig,
    StorageConfig,
};
use gateway::error::GatewayError;

fn provider(name: &str, kind: Option<&str>, base_url: &str) -> NamedProvider {
    NamedProvider {
        name: name.to_string(),
        config: ProviderConfig {
            kind: kind.map(|k| k.to_string()),
            base_url: base_url.to_string(),
            credential: "env://X".to_string(),
            headers: vec![],
        },
    }
}

fn memory_config(providers: Vec<NamedProvider>) -> AppConfig {
    AppConfig {
        server: ServerConfig::default(),
        storage: StorageConfig::Memory { cache: CacheConfig::default() },
        admin: AdminConfig::default(),
        providers,
        routes: vec![],
        limits: vec![],
        observability: ObservabilityConfig::default(),
        gateway_keys: vec![],
    }
}

fn error_message(cfg: &AppConfig) -> String {
    match cfg.validate() {
        Err(GatewayError::BadRequest(m)) => m,
        other => panic!("expected a bad request, got {other:?}"),
    }
}

#[test]
fn provider_kind_defaults_to_map_key() {
    let cfg = memory_config(vec![provider("openai", None, "https://api.openai.com")]);
    assert!(cfg.validate().is_ok(), "valid");
    assert!(cfg.providers[0].config.kind.is_none());
}

#[test]
fn explicit_kind_decouples_name_from_adapter() {
    let cfg = memory_config(vec![provider("doubao", Some("openai"), "https://ark.example")]);
    assert!(cfg.validate().is_ok(), "valid");
    assert_eq!(cfg.providers[0].config.kind.as_deref(), Some("openai"));
}

#[test]
fn unknown_kind_is_rejected_at_load() {
    let cfg = memory_config(vec![provider("weird", Some("gemini-but-typo"), "https://example")]);
    let msg = error_message(&cfg);
    assert!(msg.contains("unsupported kind"), "got: {msg}");
}

#[test]
fn unknown_kind_via_implicit_name_also_rejected() {
    let cfg = memory_config(vec![provider("doubao", None, "https://example")]);
    let msg = error_message(&cfg);
    assert!(msg.contains("unsupported kind"), "got: {msg}");
    assert_eq!(msg, "provider 'doubao' has unsupported kind 'doubao'; supported: openai, anthropic");
}

fn route(namespace: Option<&str>, primary: &str, fallbacks: Vec<&str>) -> RouteConfig {
    RouteConfig {
        match_: RouteMatch { namespace: namespace.map(|s| s.to_string()), model_prefix: None },
        primary: RouteTarget { provider: primary.to_string(), model: None, trigger: vec![] },
        cache: RouteCacheConfig::default(),
        retry: RouteRetryConfig::default(),
        fallbacks: fallbacks
            .into_iter()
            .map(|p| RouteTarget { provider: p.to_string(), model: None, trigger: vec![] })
            .collect(),
    }
}

#[test]
fn route_without_namespace_is_rejected() {
    let mut cfg = memory_config(vec![provider("openai", None, "u")]);
    cfg.routes.push(route(None, "openai", vec![]));
    assert_eq!(error_message(&cfg), "route for primary.provider 'openai' must declare match.namespace");
}

#[test]
fn route_to_unknown_provider_is_rejected() {
    let mut cfg = memory_config(vec![provider("openai", None, "u")]);
    cfg.routes.push(route(Some("chat"), "anthropic", vec![]));
    assert_eq!(error_message(&cfg), "route references unknown provider: anthropic");
    let mut cfg = memory_config(vec![provider("openai", None, "u")]);
    cfg.routes.push(route(Some("chat"), "openai", vec!["nope"]));
    assert_eq!(error_message(&cfg), "fallback references unknown provider: nope");
}

fn key(id: &str, name: &str, secret: &str) -> GatewayKeyConfig {
    GatewayKeyConfig {
        id: id.to_string(),
        name: name.to_string(),
        project_id: None,
        secret: secret.to_string(),
        scopes: vec![],
    }
}

#[test]
fn declared_keys_are_checked() {
    let mut cfg = memory_config(vec![]);
    cfg.gateway_keys = vec![key("k1", "one", "sk-gw-live-abc"), key("k1", "two", "sk-gw-test-x")];
    assert_eq!(error_message(&cfg), "gateway_keys[].id 'k1' is declared more than once");
    cfg.gateway_keys = vec![key("k2", " ", "sk-gw-live-abc")];
    assert_eq!(error_message(&cfg), "gateway_keys[id=k2].name must be non-empty");
    cfg.gateway_keys = vec![key("k3", "n", "plain")];
    assert_eq!(
        error_message(&cfg),
        "gateway_keys[id=k3].secret must start with 'sk-gw-live-' or 'sk-gw-test-' (or use env://VAR)"
    );
    cfg.gateway_keys = vec![key("k4", "n", "env://GW_KEY")];
    assert!(cfg.validate().is_ok());
}

#[test]
fn defaults_match_documentation() {
    let s = ServerConfig::default();
    assert_eq!(s.bind, "0.0.0.0:8080");
    assert_eq!(s.request_timeout_ms, 600_000);
    assert_eq!(s.default_project_id, "default");
    assert_eq!(default_cache_ttl(), 3600);
    assert_eq!(default_max_attempts(), 3);
    assert_eq!(default_initial_backoff_ms(), 500);
    assert_eq!(StorageConfig::Memory { cache: CacheConfig::default() }.profile_name(), "memory");
}

#[test]
fn secrets_resolve_and_redact() {
    let k = key("k", "n", "env://GW_SECRET");
    assert_eq!(k.resolve_secret(Some("sk-gw-live-1".into())), Ok("sk-gw-live-1".to_string()));
    assert_eq!(k.resolve_secret(None), Err("env var 'GW_SECRET' not set or empty".to_string()));
    assert_eq!(k.secret_repr(), "env://GW_SECRET");
    let lit = key("k", "n", "sk-gw-live-abc");
    assert_eq!(lit.resolve_secret(None), Ok("sk-gw-live-abc".to_string()));
    assert_eq!(lit.secret_repr(), "<redacted>");
    assert_eq!(key("k", "n", "env://").resolve_secret(None), Err("env:// reference is missing a var name".to_string()));
    assert_eq!(key("k", "n", "").resolve_secret(None), Err("secret is empty".to_string()));
}
