use gateway::admin::{
    aggregate_query, check_new_admin, check_new_credential, default_env, log_query, me,
    parse_env_request, parse_group_by, prepare_credential, prepare_key, pricing_key,
    project_or_default, AggregateDimension, CostQuery, CreateCredentialRequest, CreateKeyRequest,
    ListLogsQuery,
};
use gateway::auth::{
    admin_principal, check_key_row, extract_bearer, gateway_key_lookup_hash, is_root_token,
    key_principal, session_claims, AdminPrincipal,
};
use gateway::budget::{listed_for, matches_budget};
use gateway::config::{
    AdminConfig, AppConfig, BudgetTarget, CacheConfig, GatewayKeyConfig, LimitConfig, LimitTarget,
    NamedProvider, ObservabilityConfig, ProviderConfig, ServerConfig, SqliteConfig, StorageConfig,
};
use gateway::error::{ApiError, GatewayError};
use gateway::headers::{Header, HeaderList};
use gateway::pricing::{billable_tokens, PricingIndex, TokenUsage};
use gateway::ratelimit::{
    rate_checks, reconcile_delta, CheckKind, CheckOutcome, Verdict, DEFAULT_TOKEN_PREDEDUCT,
};
use gateway::reload::{apply_reload, warn_unsafe_changes};
use gateway::runtime::{admin_token_var, check_workers, path_looks_networked, read_admin_token};
use gateway::security::{decrypt_credential, derive_hash, KeyEnv, MasterKey};
use gateway::seed::plan_seed;

fn limit(kind: &str, id: Option<&str>, rpm: Option<u64>, tpm: Option<u64>, conc: Option<u32>) -> LimitConfig {
    LimitConfig {
        target: LimitTarget { kind: kind.into(), id: id.map(|s| s.to_string()), key: None },
        rpm,
        tpm,
        concurrency: conc,
    }
}

#[test]
fn limits_apply_by_scope() {
    let limits = vec![
        limit("key", Some("k1"), Some(10), Some(1000), None),
        limit("key", Some("other"), Some(1), None, None),
        limit("project", None, None, None, Some(4)),
        limit("global", None, Some(100), None, None),
        limit("metadata", None, Some(1), None, None),
    ];
    let checks = rate_checks(&limits, "k1", "p1");
    let view: Vec<(CheckKind, String, u64)> = checks.iter().map(|c| (c.kind, c.key.clone(), c.limit)).collect();
    assert_eq!(
        view,
        vec![
            (CheckKind::Requests, "rpm:key:k1".to_string(), 10),
            (CheckKind::Tokens, "tpm:key:k1".to_string(), 1000),
            (CheckKind::Concurrency, "conc:project:p1".to_string(), 4),
            (CheckKind::Requests, "rpm:global".to_string(), 100),
        ]
    );
    assert_eq!(checks[0].increment(), 1);
    assert_eq!(checks[1].increment(), DEFAULT_TOKEN_PREDEDUCT);
}

#[test]
fn verdicts_follow_counts() {
    let checks = rate_checks(&[limit("global", None, Some(2), Some(2000), Some(1))], "k", "p");
    assert_eq!(checks[0].verdict(CheckOutcome::Counted(2)), Verdict::Pass);
    assert_eq!(checks[0].verdict(CheckOutcome::Counted(3)), Verdict::Reject);
    assert_eq!(checks[0].verdict(CheckOutcome::Counted(-1)), Verdict::Reject);
    assert_eq!(checks[1].verdict(CheckOutcome::Counted(1024)), Verdict::PassReserving);
    assert_eq!(checks[1].verdict(CheckOutcome::Counted(2048)), Verdict::RollbackAndReject);
    assert_eq!(checks[2].verdict(CheckOutcome::Slot(true)), Verdict::Pass);
    assert_eq!(checks[2].verdict(CheckOutcome::Slot(false)), Verdict::Reject);
    assert_eq!(reconcile_delta(1024, 1024), None);
    assert_eq!(reconcile_delta(300, 1024), Some(-724));
}

fn key(id: &str, project: Option<&str>, secret: &str) -> GatewayKeyConfig {
    GatewayKeyConfig {
        id: id.into(),
        name: format!("name-{id}"),
        project_id: project.map(|p| p.to_string()),
        secret: secret.into(),
        scopes: vec!["chat".into()],
    }
}

#[test]
fn seed_plan_groups_and_hashes() {
    let mk = MasterKey([5u8; 32]);
    let keys = vec![
        key("a", None, "sk-gw-live-aaaa1234"),
        key("b", Some("p2"), "env://B_KEY"),
        key("c", None, "sk-gw-test-cccc"),
    ];
    let envs = vec![None, Some("sk-gw-test-from-env".to_string()), None];
    let plan = plan_seed(&keys, &envs, &mk, "default").unwrap();
    assert_eq!(plan.upserts.len(), 3);
    assert_eq!(plan.upserts[0].project_id, "default");
    assert_eq!(plan.upserts[0].prefix, "sk-gw-live-");
    assert_eq!(plan.upserts[0].last4, "1234");
    assert_eq!(plan.upserts[0].hash, derive_hash(&mk, "sk-gw-live-aaaa1234"));
    assert_eq!(plan.upserts[1].project_id, "p2");
    assert_eq!(plan.upserts[1].prefix, "sk-gw-test-");
    assert_eq!(plan.upserts[1].last4, "-env");
    let groups: Vec<(String, Vec<String>)> = plan.prunes.iter().map(|g| (g.project_id.clone(), g.ids.clone())).collect();
    assert_eq!(
        groups,
        vec![
            ("default".to_string(), vec!["a".to_string(), "c".to_string()]),
            ("p2".to_string(), vec!["b".to_string()])
        ]
    );
    assert!(!plan.prune_default);
}

#[test]
fn seed_plan_fails_on_first_bad_key() {
    let mk = MasterKey([5u8; 32]);
    let keys = vec![key("a", Some("p"), "sk-gw-live-x"), key("b", None, "env://MISSING"), key("c", None, "plain")];
    let envs = vec![None, None, None];
    assert_eq!(
        plan_seed(&keys, &envs, &mk, "default").err(),
        Some("gateway_keys[id=b].secret could not be resolved: env var 'MISSING' not set or empty".to_string())
    );
    let keys = vec![key("c", None, "plain")];
    assert_eq!(
        plan_seed(&keys, &vec![None], &mk, "default").err(),
        Some("gateway_keys[id=c].secret must start with 'sk-gw-live-' or 'sk-gw-test-'".to_string())
    );
    let plan = plan_seed(&vec![key("a", Some("p"), "sk-gw-live-x")], &vec![None], &mk, "default").unwrap();
    assert!(plan.prune_default);
    let empty = plan_seed(&vec![], &vec![], &mk, "default").unwrap();
    assert!(empty.upserts.is_empty() && empty.prunes.is_empty() && empty.prune_default);
}

fn app(bind: &str, providers: Vec<(&str, &str)>, lite: bool) -> AppConfig {
    AppConfig {
        server: ServerConfig { bind: bind.into(), ..ServerConfig::default() },
        storage: if lite {
            StorageConfig::Lite { sqlite: SqliteConfig::default(), cache: CacheConfig::default() }
        } else {
            StorageConfig::Memory { cache: CacheConfig::default() }
        },
        admin: AdminConfig::default(),
        providers: providers
            .into_iter()
            .map(|(n, u)| NamedProvider {
                name: n.into(),
                config: ProviderConfig { kind: None, base_url: u.into(), credential: "x".into(), headers: vec![] },
            })
            .collect(),
        routes: vec![],
        limits: vec![],
        observability: ObservabilityConfig::default(),
        gateway_keys: vec![],
    }
}

#[test]
fn reload_warnings() {
    let old = app("0.0.0.0:8080", vec![("openai", "https://a")], true);
    assert_eq!(warn_unsafe_changes(&old, &app("0.0.0.0:8080", vec![("openai", "https://a")], true)), "");
    assert_eq!(
        warn_unsafe_changes(&old, &app("0.0.0.0:9090", vec![("openai", "https://b")], false)),
        "server.bind changed (requires restart), providers changed (proxy engine still uses old credentials until restart), storage.profile changed (requires restart)"
    );
    assert_eq!(
        warn_unsafe_changes(&old, &app("0.0.0.0:8080", vec![("anthropic", "https://a")], true)),
        "providers changed (proxy engine still uses old credentials until restart)"
    );
}

#[test]
fn reload_replaces_or_keeps_config() {
    let old = app("0.0.0.0:8080", vec![("openai", "https://a")], true);
    let (cfg, res) = apply_reload(old, Ok(app("0.0.0.0:9090", vec![("openai", "https://a")], true)));
    assert_eq!(cfg.server.bind, "0.0.0.0:9090");
    assert_eq!(res.unwrap(), "server.bind changed (requires restart)");
    let (cfg, res) = apply_reload(cfg, Err(GatewayError::Internal("bad yaml".into())));
    assert_eq!(cfg.server.bind, "0.0.0.0:9090");
    assert!(matches!(res, Err(GatewayError::Internal(m)) if m == "bad yaml"));
}

fn headers(pairs: &[(&str, &str)]) -> HeaderList {
    HeaderList { entries: pairs.iter().map(|(k, v)| Header { name: k.to_string(), value: v.as_bytes().to_vec() }).collect() }
}

#[test]
fn bearer_tokens_and_key_rows() {
    assert_eq!(extract_bearer(&headers(&[("authorization", "Bearer  sk-gw-live-x ")])), Some("sk-gw-live-x".to_string()));
    assert_eq!(extract_bearer(&headers(&[("authorization", "Basic abc")])), None);
    assert_eq!(extract_bearer(&headers(&[("authorization", "Bearer   ")])), None);
    assert_eq!(extract_bearer(&headers(&[])), None);
    let mk = MasterKey([1u8; 32]);
    assert_eq!(gateway_key_lookup_hash("sk-other", &mk), Err(ApiError::Unauthorized));
    assert_eq!(gateway_key_lookup_hash("sk-gw-test-1", &mk), Ok(derive_hash(&mk, "sk-gw-test-1")));
    assert_eq!(check_key_row("active", None, 5), Ok(()));
    assert_eq!(check_key_row("active", Some(6), 5), Ok(()));
    assert_eq!(check_key_row("active", Some(5), 5), Err(ApiError::Unauthorized));
    assert_eq!(check_key_row("revoked", None, 5), Err(ApiError::Unauthorized));
    assert!(is_root_token("root-secret", Some("root-secret")));
    assert!(!is_root_token("root-secret", Some("root-secreT")));
    assert!(!is_root_token("x", None));
}

#[test]
fn admin_request_checks() {
    assert_eq!(default_env(), "live");
    assert_eq!(parse_env_request("test"), Ok(KeyEnv::Test));
    assert_eq!(parse_env_request("prod"), Err(ApiError::BadRequest("invalid env 'prod', expected live or test".into())));
    assert_eq!(check_new_admin("root", "secret"), Ok(()));
    assert_eq!(check_new_admin("", "secret"), Err(ApiError::BadRequest("username required, password >= 6 chars".into())));
    assert_eq!(check_new_admin("a", "short"), Err(ApiError::BadRequest("username required, password >= 6 chars".into())));
    assert_eq!(check_new_admin("a", "ééé"), Ok(()));
    assert_eq!(check_new_credential(""), Err(ApiError::BadRequest("api_key required".into())));
    assert_eq!(pricing_key(" openai ", "gpt-4o "), Ok(("openai".to_string(), "gpt-4o".to_string())));
    assert_eq!(pricing_key(" ", "m"), Err(ApiError::BadRequest("provider and model are required".into())));
}

#[test]
fn group_by_parsing() {
    assert_eq!(parse_group_by(None), vec![AggregateDimension::Provider, AggregateDimension::Model]);
    assert_eq!(
        parse_group_by(Some(" Day ,key,,bogus,HOUR,gateway_key")),
        vec![AggregateDimension::Day, AggregateDimension::GatewayKey, AggregateDimension::Hour, AggregateDimension::GatewayKey]
    );
    assert_eq!(parse_group_by(Some("")), vec![]);
}

#[test]
fn runtime_checks() {
    assert_eq!(read_admin_token("  ", None), Ok(None));
    assert_eq!(read_admin_token(" tok ", None), Ok(Some("tok".to_string())));
    assert_eq!(read_admin_token("env://", None), Err("admin.root_token env reference is missing a var name".to_string()));
    assert_eq!(read_admin_token("env://ROOT", Some("r".into())), Ok(Some("r".to_string())));
    assert_eq!(read_admin_token("env://ROOT", Some("".into())), Ok(None));
    assert_eq!(admin_token_var(" env://ROOT "), Some("ROOT".to_string()));
    assert_eq!(admin_token_var("plain"), None);
    assert_eq!(check_workers(true, Some("2")), Err("GATEWAY_WORKERS>1 is incompatible with storage.profile=lite; switch to profile=standard or run a single worker".to_string()));
    assert_eq!(check_workers(true, Some("1")), Ok(()));
    assert_eq!(check_workers(true, Some("99999999999")), Ok(()));
    assert_eq!(check_workers(false, Some("8")), Ok(()));
    assert!(path_looks_networked("/mnt/NFS/data/gw.db"));
    assert!(path_looks_networked("/srv/smb/x"));
    assert!(!path_looks_networked("/var/lib/nfsdata"));
}

#[test]
fn price_lookup_falls_back_to_undated_model() {
    let idx = PricingIndex::from_keys(vec![
        ("openai".into(), "gpt-4o".into()),
        ("anthropic".into(), "haiku-4".into()),
        ("openai".into(), "gpt-4o".into()),
    ]);
    assert_eq!(idx.lookup("openai", "gpt-4o"), Some(2));
    assert_eq!(idx.lookup("openai", "gpt-4o-20250101"), Some(2));
    assert_eq!(idx.lookup("anthropic", "haiku-4-20250514"), Some(1));
    assert_eq!(idx.lookup("openai", "gpt-4o-mini"), None);
    assert_eq!(idx.lookup("anthropic", "gpt-4o"), None);
    assert_eq!(billable_tokens(TokenUsage { prompt: 1000, completion: 500, cached: 800 }), (200, 800, 500));
    assert_eq!(billable_tokens(TokenUsage { prompt: 100, completion: -3, cached: 200 }), (0, 200, 0));
}

#[test]
fn budget_targets() {
    let t = BudgetTarget { project_id: Some("p".into()), gateway_key_id: None };
    assert!(matches_budget(&t, "p", "any"));
    assert!(!matches_budget(&t, "q", "any"));
    let k = BudgetTarget { project_id: None, gateway_key_id: Some("k".into()) };
    assert!(matches_budget(&k, "q", "k"));
    assert!(!matches_budget(&k, "q", "j"));
    assert!(listed_for(&t, None));
    assert!(listed_for(&t, Some("p")));
    assert!(!listed_for(&t, Some("q")));
    assert!(listed_for(&k, Some("q")));
}

#[test]
fn key_creation_requests() {
    let mk = MasterKey([8u8; 32]);
    let req = CreateKeyRequest { name: "ci".into(), env: "test".into(), project_id: None, scopes: vec!["chat".into()], expires_at: Some(9) };
    let k = prepare_key(&req, "default", &mk).unwrap();
    assert_eq!(k.project_id, "default");
    assert_eq!(k.prefix, "sk-gw-test-");
    assert!(k.plaintext.starts_with("sk-gw-test-"));
    assert_eq!(k.hash, derive_hash(&mk, &k.plaintext));
    assert_eq!(k.scopes, vec!["chat".to_string()]);
    assert_eq!(k.expires_at, Some(9));
    let bad = CreateKeyRequest { env: "prod".into(), ..req };
    assert!(matches!(prepare_key(&bad, "default", &mk), Err(ApiError::BadRequest(m)) if m == "invalid env 'prod', expected live or test"));
}

#[test]
fn credential_requests_are_encrypted() {
    let mk = MasterKey([8u8; 32]);
    let req = CreateCredentialRequest { provider: "openai".into(), name: "main".into(), api_key: "sk-up".into(), project_id: Some("p".into()) };
    let c = prepare_credential(&req, "default", &mk).unwrap();
    assert_eq!(c.project_id, "p");
    assert_eq!(c.status, "active");
    assert_eq!(decrypt_credential(&mk, &c.encrypted_key).unwrap(), "sk-up");
    let empty = CreateCredentialRequest { api_key: "".into(), ..req };
    assert!(matches!(prepare_credential(&empty, "default", &mk), Err(ApiError::BadRequest(m)) if m == "api_key required"));
}

#[test]
fn queries_fill_defaults() {
    let q = CostQuery { project_id: None, from: Some(1), to: None, group_by: Some("model".into()) };
    let a = aggregate_query(&q, "default");
    assert_eq!(a.project_id.as_deref(), Some("default"));
    assert_eq!(a.from_ts, Some(1));
    assert_eq!(a.group_by, vec![AggregateDimension::Model]);
    let l = log_query(
        &ListLogsQuery { project_id: Some("p".into()), gateway_key_id: None, namespace: None, model: None, status: Some("success".into()), from: None, to: None, limit: None, cursor: None },
        "default",
    );
    assert_eq!(l.project_id.as_deref(), Some("p"));
    assert_eq!(l.limit, 50);
    assert_eq!(l.status.as_deref(), Some("success"));
    assert_eq!(project_or_default(&None, "d"), "d");
}

#[test]
fn principals() {
    assert!(matches!(admin_principal(true, None), Ok(AdminPrincipal::Root)));
    let claims = session_claims("u1", "ann", 1_000, 43_200);
    assert_eq!((claims.iat, claims.exp), (1_000, 44_200));
    assert!(matches!(admin_principal(false, Some(claims)), Ok(AdminPrincipal::User { id, username }) if id == "u1" && username == "ann"));
    assert!(matches!(admin_principal(false, None), Err(ApiError::Unauthorized)));
    let m = me(AdminPrincipal::Root);
    assert_eq!(m.principal, "root");
    let m = me(AdminPrincipal::User { id: "u1".into(), username: "ann".into() });
    assert_eq!((m.principal, m.username.as_deref(), m.id.as_deref()), ("user", Some("ann"), Some("u1")));
    let p = key_principal("k1".into(), "p1".into(), "active", None, 0).unwrap();
    assert_eq!((p.key_id.as_str(), p.project_id.as_str()), ("k1", "p1"));
    assert!(matches!(key_principal("k1".into(), "p1".into(), "active", Some(0), 0), Err(ApiError::Unauthorized)));
}
