//! Gateway configuration: its parts, their defaults, and the checks made when
//! a configuration is loaded. Maps keyed by name are lists of named entries
//! (each name once); money amounts (budgets) are kept by the application.
use vstd::prelude::*;
use vstd::string::*;
use crate::error::GatewayError;
use crate::providers::{is_known_provider_kind, known_provider_kind};
use crate::text::{all_ws, has_prefix, is_blank, push_str, starts_with};

verus! {

pub struct ServerConfig {
    pub bind: String,
    pub request_timeout_ms: u64,
    pub default_project_id: String,
}

impl Default for ServerConfig {
    fn default() -> (r: Self)
        ensures
            r.bind@ == "0.0.0.0:8080"@,
            r.request_timeout_ms == 600_000,
            r.default_project_id@ == "default"@,
    {
        ServerConfig {
            bind: default_bind(),
            request_timeout_ms: default_request_timeout_ms(),
            default_project_id: default_project_id(),
        }
    }
}

pub fn default_bind() -> (r: String)
    ensures
        r@ == "0.0.0.0:8080"@,
{
    String::from_str("0.0.0.0:8080")
}

pub fn default_request_timeout_ms() -> (r: u64)
    ensures
        r == 600_000,
{
    600_000
}

pub fn default_project_id() -> (r: String)
    ensures
        r@ == "default"@,
{
    String::from_str("default")
}

pub enum StorageConfig {
    Lite { sqlite: SqliteConfig, cache: CacheConfig },
    Standard { postgres: PostgresConfig, redis: RedisConfig, cache: CacheConfig },
    Memory { cache: CacheConfig },
}

pub open spec fn profile_of(s: StorageConfig) -> Seq<char> {
    match s {
        StorageConfig::Lite { .. } => "lite"@,
        StorageConfig::Standard { .. } => "standard"@,
        StorageConfig::Memory { .. } => "memory"@,
    }
}

impl StorageConfig {
    pub fn profile_name(&self) -> (r: &'static str)
        ensures
            r@ == profile_of(*self),
    {
        match self {
            StorageConfig::Lite { .. } => "lite",
            StorageConfig::Standard { .. } => "standard",
            StorageConfig::Memory { .. } => "memory",
        }
    }
}

pub struct SqliteConfig {
    pub path: String,
    pub max_size_mb: u64,
    pub log_retention_days: u32,
}

impl Default for SqliteConfig {
    fn default() -> (r: Self)
        ensures
            r.path@ == "./data/gateway.db"@,
            r.max_size_mb == 10240,
            r.log_retention_days == 30,
    {
        SqliteConfig {
            path: default_sqlite_path(),
            max_size_mb: default_max_size_mb(),
            log_retention_days: default_log_retention_days(),
        }
    }
}

pub fn default_sqlite_path() -> (r: String)
    ensures
        r@ == "./data/gateway.db"@,
{
    String::from_str("./data/gateway.db")
}

pub fn default_max_size_mb() -> (r: u64)
    ensures
        r == 10240,
{
    10240
}

pub fn default_log_retention_days() -> (r: u32)
    ensures
        r == 30,
{
    30
}

pub struct PostgresConfig {
    pub url: String,
    pub max_connections: u32,
}

pub fn default_pg_max_connections() -> (r: u32)
    ensures
        r == 32,
{
    32
}

pub struct RedisConfig {
    pub url: String,
}

pub struct CacheConfig {
    pub l1_memory_mb: u64,
    pub l2_max_size_mb: u64,
}

impl Default for CacheConfig {
    fn default() -> (r: Self)
        ensures
            r.l1_memory_mb == 256,
            r.l2_max_size_mb == 1024,
    {
        CacheConfig { l1_memory_mb: default_l1_memory_mb(), l2_max_size_mb: default_l2_max_size_mb() }
    }
}

pub fn default_l1_memory_mb() -> (r: u64)
    ensures
        r == 256,
{
    256
}

pub fn default_l2_max_size_mb() -> (r: u64)
    ensures
        r == 1024,
{
    1024
}

/// Admin API settings. `root_token`: empty disables the Admin API,
/// `env://VAR` reads the token from the environment, anything else is the
/// token itself.
pub struct AdminConfig {
    pub root_token: String,
    pub password_login: bool,
}

impl Default for AdminConfig {
    fn default() -> (r: Self)
        ensures
            r.root_token@.len() == 0,
            !r.password_login,
    {
        AdminConfig { root_token: String::new(), password_login: false }
    }
}

pub fn default_root_token() -> (r: String)
    ensures
        r@ == "env://GATEWAY_ROOT_TOKEN"@,
{
    String::from_str("env://GATEWAY_ROOT_TOKEN")
}

/// An upstream provider. `kind` names the auth adapter (`openai` or
/// `anthropic`); when absent the provider's name is used.
pub struct ProviderConfig {
    pub kind: Option<String>,
    pub base_url: String,
    /// `env://VAR_NAME` or a literal token.
    pub credential: String,
    pub headers: Vec<(String, String)>,
}

/// A provider under its name in the `providers` map.
pub struct NamedProvider {
    pub name: String,
    pub config: ProviderConfig,
}

pub struct RouteConfig {
    pub match_: RouteMatch,
    pub primary: RouteTarget,
    pub cache: RouteCacheConfig,
    pub retry: RouteRetryConfig,
    pub fallbacks: Vec<RouteTarget>,
}

pub struct RouteMatch {
    /// The `{namespace}` segment in `/v1/{namespace}/...`.
    pub namespace: Option<String>,
    pub model_prefix: Option<String>,
}

impl Default for RouteMatch {
    fn default() -> (r: Self)
        ensures
            r.namespace is None,
            r.model_prefix is None,
    {
        RouteMatch { namespace: None, model_prefix: None }
    }
}

pub struct RouteTarget {
    pub provider: String,
    pub model: Option<String>,
    pub trigger: Vec<String>,
}

pub struct RouteCacheConfig {
    pub enabled: bool,
    pub ttl: u64,
    /// Cache even non-deterministic requests.
    pub allow_nondeterministic: bool,
}

impl Default for RouteCacheConfig {
    fn default() -> (r: Self)
        ensures
            !r.enabled,
            r.ttl == 0,
            !r.allow_nondeterministic,
    {
        RouteCacheConfig { enabled: false, ttl: 0, allow_nondeterministic: false }
    }
}

pub fn default_cache_ttl() -> (r: u64)
    ensures
        r == 3600,
{
    3600
}

#[derive(Clone, Copy)]
pub struct RouteRetryConfig {
    pub max_attempts: u32,
    pub initial_backoff_ms: u64,
}

impl Default for RouteRetryConfig {
    fn default() -> (r: Self)
        ensures
            r.max_attempts == 3,
            r.initial_backoff_ms == 500,
    {
        RouteRetryConfig {
            max_attempts: default_max_attempts(),
            initial_backoff_ms: default_initial_backoff_ms(),
        }
    }
}

pub fn default_max_attempts() -> (r: u32)
    ensures
        r == 3,
{
    3
}

pub fn default_initial_backoff_ms() -> (r: u64)
    ensures
        r == 500,
{
    500
}

pub struct LimitConfig {
    pub target: LimitTarget,
    pub rpm: Option<u64>,
    pub tpm: Option<u64>,
    pub concurrency: Option<u32>,
}

pub struct LimitTarget {
    /// `key`, `project`, `metadata` or `global`.
    pub kind: String,
    pub id: Option<String>,
    pub key: Option<String>,
}

pub struct BudgetTarget {
    pub project_id: Option<String>,
    pub gateway_key_id: Option<String>,
}

pub struct ObservabilityConfig {
    pub metrics: bool,
    pub tracing: TracingConfig,
}

impl Default for ObservabilityConfig {
    fn default() -> (r: Self)
        ensures
            r.metrics,
            r.tracing.enabled,
            r.tracing.format@ == "json"@,
            r.tracing.otlp_endpoint is None,
    {
        ObservabilityConfig { metrics: true, tracing: TracingConfig::default() }
    }
}

pub fn default_true() -> (r: bool)
    ensures
        r,
{
    true
}

pub struct TracingConfig {
    pub enabled: bool,
    /// `json` or `text`.
    pub format: String,
    pub otlp_endpoint: Option<String>,
}

impl Default for TracingConfig {
    fn default() -> (r: Self)
        ensures
            r.enabled,
            r.format@ == "json"@,
            r.otlp_endpoint is None,
    {
        TracingConfig { enabled: true, format: default_tracing_format(), otlp_endpoint: None }
    }
}

pub fn default_tracing_format() -> (r: String)
    ensures
        r@ == "json"@,
{
    String::from_str("json")
}

/// A gateway API key declared in the configuration. `secret` is a literal
/// `sk-gw-{live,test}-...` key or `env://VAR_NAME`.
pub struct GatewayKeyConfig {
    /// Stable identifier, the key's row id.
    pub id: String,
    pub name: String,
    pub project_id: Option<String>,
    pub secret: String,
    pub scopes: Vec<String>,
}

/// Where a declared secret comes from.
pub enum SecretSource {
    /// The named environment variable.
    Env(String),
    /// The secret itself.
    Literal(String),
}

impl GatewayKeyConfig {
    /// How to resolve `secret`: `env://VAR` names an environment variable;
    /// anything else is the plaintext. An empty `env://` reference and an
    /// empty secret are errors.
    pub fn secret_source(&self) -> (r: Result<SecretSource, String>)
        ensures
            has_prefix(self.secret@, "env://"@) ==> (if self.secret@.len() == 6 {
                r matches Err(m) && m@ == "env:// reference is missing a var name"@
            } else {
                r matches Ok(SecretSource::Env(v)) && v@ == self.secret@.skip(6)
            }),
            !has_prefix(self.secret@, "env://"@) ==> (if self.secret@.len() == 0 {
                r matches Err(m) && m@ == "secret is empty"@
            } else {
                r matches Ok(SecretSource::Literal(v)) && v@ == self.secret@
            }),
    {
        proof {
            reveal_strlit("env://");
        }
        match crate::text::strip_prefix(self.secret.as_str(), "env://") {
            Some(var) => {
                if var.as_str().is_empty() {
                    Err(String::from_str("env:// reference is missing a var name"))
                } else {
                    Ok(SecretSource::Env(var))
                }
            },
            None => {
                if self.secret.as_str().is_empty() {
                    Err(String::from_str("secret is empty"))
                } else {
                    Ok(SecretSource::Literal(self.secret.clone()))
                }
            },
        }
    }

    /// The plaintext secret. `env_value` is the value of the variable that an
    /// `env://` reference names, as read from the process environment
    /// (`None` when it is unset or not Unicode).
    pub fn resolve_secret(&self, env_value: Option<String>) -> (r: Result<String, String>)
        ensures
            has_prefix(self.secret@, "env://"@) ==> (if self.secret@.len() == 6 {
                r matches Err(m) && m@ == "env:// reference is missing a var name"@
            } else {
                match env_value {
                    Some(v) => r matches Ok(s) && s@ == v@,
                    None => r matches Err(m) && m@ == "env var '"@ + self.secret@.skip(6)
                        + "' not set or empty"@,
                }
            }),
            !has_prefix(self.secret@, "env://"@) ==> (if self.secret@.len() == 0 {
                r matches Err(m) && m@ == "secret is empty"@
            } else {
                r matches Ok(s) && s@ == self.secret@
            }),
    {
        match self.secret_source()? {
            SecretSource::Literal(v) => Ok(v),
            SecretSource::Env(var) => match env_value {
                Some(v) => Ok(v),
                None => {
                    let mut m = String::from_str("env var '");
                    push_str(&mut m, var.as_str());
                    push_str(&mut m, "' not set or empty");
                    Err(m)
                },
            },
        }
    }

    /// The secret as shown in debug output: an `env://` reference as is,
    /// anything else redacted.
    pub fn secret_repr(&self) -> (r: String)
        ensures
            r@ == (if has_prefix(self.secret@, "env://"@) {
                self.secret@
            } else {
                "<redacted>"@
            }),
    {
        if starts_with(self.secret.as_str(), "env://") {
            self.secret.clone()
        } else {
            String::from_str("<redacted>")
        }
    }
}

/// The gateway configuration.
pub struct AppConfig {
    pub server: ServerConfig,
    pub storage: StorageConfig,
    pub admin: AdminConfig,
    /// The `providers` map, one entry per name.
    pub providers: Vec<NamedProvider>,
    pub routes: Vec<RouteConfig>,
    pub limits: Vec<LimitConfig>,
    pub observability: ObservabilityConfig,
    /// Keys seeded into the metadata store at boot and on reload.
    pub gateway_keys: Vec<GatewayKeyConfig>,
}

/// The adapter a provider uses: its `kind`, or else its name.
pub open spec fn provider_kind(p: NamedProvider) -> Seq<char> {
    match p.config.kind {
        Some(k) => k@,
        None => p.name@,
    }
}

pub open spec fn provider_names(ps: Seq<NamedProvider>) -> Set<Seq<char>> {
    Set::new(|n: Seq<char>| exists|i: int| 0 <= i < ps.len() && #[trigger] ps[i].name@ == n)
}

pub open spec fn msg_bad_kind(name: Seq<char>, kind: Seq<char>) -> Seq<char> {
    "provider '"@ + name + "' has unsupported kind '"@ + kind + "'; supported: openai, anthropic"@
}

pub open spec fn msg_no_namespace(provider: Seq<char>) -> Seq<char> {
    "route for primary.provider '"@ + provider + "' must declare match.namespace"@
}

pub open spec fn msg_unknown_primary(provider: Seq<char>) -> Seq<char> {
    "route references unknown provider: "@ + provider
}

pub open spec fn msg_unknown_fallback(provider: Seq<char>) -> Seq<char> {
    "fallback references unknown provider: "@ + provider
}

/// The first provider whose adapter is unknown, as an error message.
pub open spec fn providers_error(ps: Seq<NamedProvider>) -> Option<Seq<char>>
    decreases ps.len(),
{
    if ps.len() == 0 {
        None
    } else if !known_provider_kind(provider_kind(ps[0])) {
        Some(msg_bad_kind(ps[0].name@, provider_kind(ps[0])))
    } else {
        providers_error(ps.drop_first())
    }
}

pub open spec fn fallbacks_error(names: Set<Seq<char>>, fbs: Seq<RouteTarget>) -> Option<Seq<char>>
    decreases fbs.len(),
{
    if fbs.len() == 0 {
        None
    } else if !names.contains(fbs[0].provider@) {
        Some(msg_unknown_fallback(fbs[0].provider@))
    } else {
        fallbacks_error(names, fbs.drop_first())
    }
}

pub open spec fn route_error(names: Set<Seq<char>>, r: RouteConfig) -> Option<Seq<char>> {
    if match r.match_.namespace {
        Some(ns) => ns@.len() == 0,
        None => true,
    } {
        Some(msg_no_namespace(r.primary.provider@))
    } else if !names.contains(r.primary.provider@) {
        Some(msg_unknown_primary(r.primary.provider@))
    } else {
        fallbacks_error(names, r.fallbacks@)
    }
}

/// The first route that lacks a namespace or names an unknown provider.
pub open spec fn routes_error(names: Set<Seq<char>>, rs: Seq<RouteConfig>) -> Option<Seq<char>>
    decreases rs.len(),
{
    if rs.len() == 0 {
        None
    } else if route_error(names, rs[0]) is Some {
        route_error(names, rs[0])
    } else {
        routes_error(names, rs.drop_first())
    }
}

pub open spec fn msg_key(id: Seq<char>, what: Seq<char>) -> Seq<char> {
    "gateway_keys[id="@ + id + what
}

/// The problem with declared key `keys[i]`, given the keys before it.
pub open spec fn key_error(keys: Seq<GatewayKeyConfig>, i: int) -> Option<Seq<char>> {
    let k = keys[i];
    if all_ws(k.id@) {
        Some("gateway_keys[].id must be non-empty"@)
    } else if exists|j: int| 0 <= j < i && #[trigger] keys[j].id@ == k.id@ {
        Some("gateway_keys[].id '"@ + k.id@ + "' is declared more than once"@)
    } else if all_ws(k.name@) {
        Some(msg_key(k.id@, "].name must be non-empty"@))
    } else if k.secret@.len() == 0 {
        Some(msg_key(k.id@, "].secret must be non-empty"@))
    } else if !has_prefix(k.secret@, "env://"@) && !has_prefix(k.secret@, "sk-gw-live-"@)
        && !has_prefix(k.secret@, "sk-gw-test-"@) {
        Some(
            msg_key(
                k.id@,
                "].secret must start with 'sk-gw-live-' or 'sk-gw-test-' (or use env://VAR)"@,
            ),
        )
    } else {
        None
    }
}

/// The first problem among the declared keys from index `i` on.
pub open spec fn keys_error_from(keys: Seq<GatewayKeyConfig>, i: int) -> Option<Seq<char>>
    decreases keys.len() - i,
{
    if i < 0 || i >= keys.len() {
        None
    } else if key_error(keys, i) is Some {
        key_error(keys, i)
    } else {
        keys_error_from(keys, i + 1)
    }
}

/// The message of the first problem in a configuration: providers first,
/// then routes, then declared keys.
pub open spec fn config_error(c: AppConfig) -> Option<Seq<char>> {
    let names = provider_names(c.providers@);
    if providers_error(c.providers@) is Some {
        providers_error(c.providers@)
    } else if routes_error(names, c.routes@) is Some {
        routes_error(names, c.routes@)
    } else {
        keys_error_from(c.gateway_keys@, 0)
    }
}

fn has_provider(ps: &Vec<NamedProvider>, name: &str) -> (r: bool)
    ensures
        r == provider_names(ps@).contains(name@),
{
    let n = ps.len();
    for i in 0..n
        invariant
            n == ps@.len(),
            forall|j: int| 0 <= j < i ==> #[trigger] ps@[j].name@ != name@,
    {
        if crate::text::str_eq(ps[i].name.as_str(), name) {
            assert(ps@[i as int].name@ == name@);
            return true;
        }
    }
    false
}

fn concat3(a: &str, b: &str, c: &str) -> (r: String)
    ensures
        r@ == a@ + b@ + c@,
{
    let mut s = String::from_str(a);
    push_str(&mut s, b);
    push_str(&mut s, c);
    s
}

fn check_fallbacks(ps: &Vec<NamedProvider>, fbs: &Vec<RouteTarget>) -> (r: Option<String>)
    ensures
        match r {
            Some(m) => fallbacks_error(provider_names(ps@), fbs@) == Some(m@),
            None => fallbacks_error(provider_names(ps@), fbs@) is None,
        },
{
    let ghost names = provider_names(ps@);
    let nf = fbs.len();
    assert(fbs@.skip(0) =~= fbs@);
    for j in 0..nf
        invariant
            nf == fbs@.len(),
            names == provider_names(ps@),
            fallbacks_error(names, fbs@) == fallbacks_error(names, fbs@.skip(j as int)),
    {
        let ghost t = fbs@.skip(j as int);
        assert(t.drop_first() =~= fbs@.skip(j + 1));
        if !has_provider(ps, fbs[j].provider.as_str()) {
            let m = concat3("fallback references unknown provider: ", fbs[j].provider.as_str(), "");
            proof {
                reveal_strlit("");
            }
            assert(m@ =~= msg_unknown_fallback(fbs@[j as int].provider@));
            return Some(m);
        }
    }
    assert(fbs@.skip(nf as int) =~= Seq::<RouteTarget>::empty());
    None
}

fn check_route(ps: &Vec<NamedProvider>, r: &RouteConfig) -> (res: Option<String>)
    ensures
        match res {
            Some(m) => route_error(provider_names(ps@), *r) == Some(m@),
            None => route_error(provider_names(ps@), *r) is None,
        },
{
    let missing_ns = match &r.match_.namespace {
        Some(ns) => ns.as_str().is_empty(),
        None => true,
    };
    if missing_ns {
        return Some(
            concat3(
                "route for primary.provider '",
                r.primary.provider.as_str(),
                "' must declare match.namespace",
            ),
        );
    }
    if !has_provider(ps, r.primary.provider.as_str()) {
        let m = concat3("route references unknown provider: ", r.primary.provider.as_str(), "");
        proof {
            reveal_strlit("");
        }
        assert(m@ =~= msg_unknown_primary(r.primary.provider@));
        return Some(m);
    }
    check_fallbacks(ps, &r.fallbacks)
}

fn has_earlier_id(keys: &Vec<GatewayKeyConfig>, i: usize) -> (r: bool)
    requires
        i < keys@.len(),
    ensures
        r == exists|j: int| 0 <= j < i && #[trigger] keys@[j].id@ == keys@[i as int].id@,
{
    let mut j: usize = 0;
    while j < i
        invariant
            j <= i,
            i < keys@.len(),
            forall|l: int| 0 <= l < j ==> #[trigger] keys@[l].id@ != keys@[i as int].id@,
        decreases i - j,
    {
        if crate::text::str_eq(keys[j].id.as_str(), keys[i].id.as_str()) {
            return true;
        }
        j = j + 1;
    }
    false
}

fn check_key(keys: &Vec<GatewayKeyConfig>, i: usize) -> (r: Option<String>)
    requires
        i < keys@.len(),
    ensures
        match r {
            Some(m) => key_error(keys@, i as int) == Some(m@),
            None => key_error(keys@, i as int) is None,
        },
{
    let k = &keys[i];
    if is_blank(k.id.as_str()) {
        return Some(String::from_str("gateway_keys[].id must be non-empty"));
    }
    if has_earlier_id(keys, i) {
        return Some(concat3("gateway_keys[].id '", k.id.as_str(), "' is declared more than once"));
    }
    if is_blank(k.name.as_str()) {
        let m = concat3("gateway_keys[id=", k.id.as_str(), "].name must be non-empty");
        return Some(m);
    }
    if k.secret.as_str().is_empty() {
        let m = concat3("gateway_keys[id=", k.id.as_str(), "].secret must be non-empty");
        return Some(m);
    }
    if !starts_with(k.secret.as_str(), "env://") {
        let prefix_ok = starts_with(k.secret.as_str(), "sk-gw-live-") || starts_with(
            k.secret.as_str(),
            "sk-gw-test-",
        );
        if !prefix_ok {
            let m = concat3(
                "gateway_keys[id=",
                k.id.as_str(),
                "].secret must start with 'sk-gw-live-' or 'sk-gw-test-' (or use env://VAR)",
            );
            return Some(m);
        }
    }
    None
}

impl AppConfig {
    /// Checks a loaded configuration: every provider's adapter is known, every
    /// route declares a namespace and names configured providers (primary and
    /// fallbacks), and every declared key has a unique non-blank id, a
    /// non-blank name and a non-empty secret that is an `env://` reference or
    /// starts with `sk-gw-live-`/`sk-gw-test-`. The first problem found is
    /// reported as a bad request.
    pub fn validate(&self) -> (r: Result<(), GatewayError>)
        ensures
            r is Ok <==> config_error(*self) is None,
            r matches Err(e) ==> e matches GatewayError::BadRequest(m) && config_error(*self)
                == Some(m@),
    {
        let np = self.providers.len();
        assert(self.providers@.skip(0) =~= self.providers@);
        for i in 0..np
            invariant
                np == self.providers@.len(),
                providers_error(self.providers@) == providers_error(self.providers@.skip(i as int)),
        {
            let p = &self.providers[i];
            let ghost s = self.providers@.skip(i as int);
            assert(s.drop_first() =~= self.providers@.skip(i + 1));
            let kind: &str = match &p.config.kind {
                Some(k) => k.as_str(),
                None => p.name.as_str(),
            };
            if !is_known_provider_kind(kind) {
                let mut m = concat3("provider '", p.name.as_str(), "' has unsupported kind '");
                push_str(&mut m, kind);
                push_str(&mut m, "'; supported: openai, anthropic");
                assert(m@ =~= msg_bad_kind(p.name@, kind@));
                return Err(GatewayError::BadRequest(m));
            }
        }
        assert(self.providers@.skip(np as int) =~= Seq::<NamedProvider>::empty());
        let ghost names = provider_names(self.providers@);
        let nr = self.routes.len();
        assert(self.routes@.skip(0) =~= self.routes@);
        for i in 0..nr
            invariant
                nr == self.routes@.len(),
                providers_error(self.providers@) is None,
                names == provider_names(self.providers@),
                routes_error(names, self.routes@) == routes_error(names, self.routes@.skip(i as int)),
        {
            let ghost s = self.routes@.skip(i as int);
            assert(s.drop_first() =~= self.routes@.skip(i + 1));
            if let Some(m) = check_route(&self.providers, &self.routes[i]) {
                return Err(GatewayError::BadRequest(m));
            }
        }
        assert(self.routes@.skip(nr as int) =~= Seq::<RouteConfig>::empty());
        let nk = self.gateway_keys.len();
        for i in 0..nk
            invariant
                nk == self.gateway_keys@.len(),
                config_error(*self) == keys_error_from(self.gateway_keys@, i as int),
        {
            if let Some(m) = check_key(&self.gateway_keys, i) {
                return Err(GatewayError::BadRequest(m));
            }
        }
        Ok(())
    }
}

/// A route is usable: it declares a non-empty namespace, and its primary and
/// every fallback name configured providers.
pub open spec fn route_ok(names: Set<Seq<char>>, r: RouteConfig) -> bool {
    &&& r.match_.namespace matches Some(ns) && ns@.len() > 0
    &&& names.contains(r.primary.provider@)
    &&& forall|j: int| 0 <= j < r.fallbacks@.len() ==> names.contains(#[trigger] r.fallbacks@[j].provider@)
}

/// A declared key is usable on its own: a non-blank id and name, and a
/// non-empty secret that is an `env://` reference or a gateway key.
pub open spec fn key_ok(k: GatewayKeyConfig) -> bool {
    &&& !all_ws(k.id@)
    &&& !all_ws(k.name@)
    &&& k.secret@.len() > 0
    &&& (has_prefix(k.secret@, "env://"@) || has_prefix(k.secret@, "sk-gw-live-"@) || has_prefix(
        k.secret@,
        "sk-gw-test-"@,
    ))
}

/// What a valid configuration is, stated for all its parts at once.
pub open spec fn config_valid(c: AppConfig) -> bool {
    &&& forall|i: int| 0 <= i < c.providers@.len() ==> known_provider_kind(provider_kind(#[trigger] c.providers@[i]))
    &&& forall|i: int| 0 <= i < c.routes@.len() ==> route_ok(provider_names(c.providers@), #[trigger] c.routes@[i])
    &&& forall|i: int| 0 <= i < c.gateway_keys@.len() ==> key_ok(#[trigger] c.gateway_keys@[i])
    &&& forall|i: int, j: int|
        0 <= i < j < c.gateway_keys@.len() ==> (#[trigger] c.gateway_keys@[i]).id@ != (#[trigger] c.gateway_keys@[j]).id@
}

proof fn lemma_providers_ok(ps: Seq<NamedProvider>)
    ensures
        providers_error(ps) is None <==> forall|i: int| 0 <= i < ps.len() ==> known_provider_kind(provider_kind(#[trigger] ps[i])),
    decreases ps.len(),
{
    if ps.len() > 0 {
        lemma_providers_ok(ps.drop_first());
        if providers_error(ps) is None {
            assert forall|i: int| 0 <= i < ps.len() implies known_provider_kind(provider_kind(#[trigger] ps[i])) by {
                if i > 0 {
                    assert(ps[i] == ps.drop_first()[i - 1]);
                }
            }
        } else if known_provider_kind(provider_kind(ps[0])) {
            let k = choose|k: int| 0 <= k < ps.drop_first().len() && !known_provider_kind(provider_kind(#[trigger] ps.drop_first()[k]));
            assert(ps.drop_first()[k] == ps[k + 1]);
        }
    }
}

proof fn lemma_fallbacks_ok(names: Set<Seq<char>>, fbs: Seq<RouteTarget>)
    ensures
        fallbacks_error(names, fbs) is None <==> forall|j: int| 0 <= j < fbs.len() ==> names.contains(#[trigger] fbs[j].provider@),
    decreases fbs.len(),
{
    if fbs.len() > 0 {
        lemma_fallbacks_ok(names, fbs.drop_first());
        if fallbacks_error(names, fbs) is None {
            assert forall|j: int| 0 <= j < fbs.len() implies names.contains(#[trigger] fbs[j].provider@) by {
                if j > 0 {
                    assert(fbs[j] == fbs.drop_first()[j - 1]);
                }
            }
        } else if names.contains(fbs[0].provider@) {
            let k = choose|k: int| 0 <= k < fbs.drop_first().len() && !names.contains(#[trigger] fbs.drop_first()[k].provider@);
            assert(fbs.drop_first()[k] == fbs[k + 1]);
        }
    }
}

proof fn lemma_routes_ok(names: Set<Seq<char>>, rs: Seq<RouteConfig>)
    ensures
        routes_error(names, rs) is None <==> forall|i: int| 0 <= i < rs.len() ==> route_ok(names, #[trigger] rs[i]),
    decreases rs.len(),
{
    if rs.len() > 0 {
        lemma_routes_ok(names, rs.drop_first());
        assert forall|i: int| 0 <= i < rs.len() implies (route_error(names, #[trigger] rs[i]) is None <==> route_ok(names, rs[i])) by {
            lemma_fallbacks_ok(names, rs[i].fallbacks@);
        }
        if routes_error(names, rs) is None {
            assert forall|i: int| 0 <= i < rs.len() implies route_ok(names, #[trigger] rs[i]) by {
                if i > 0 {
                    assert(rs[i] == rs.drop_first()[i - 1]);
                }
            }
        } else if route_error(names, rs[0]) is None {
            let k = choose|k: int| 0 <= k < rs.drop_first().len() && !route_ok(names, #[trigger] rs.drop_first()[k]);
            assert(rs.drop_first()[k] == rs[k + 1]);
        } else {
            assert(!route_ok(names, rs[0]));
        }
    }
}

proof fn lemma_keys_ok(keys: Seq<GatewayKeyConfig>, i: int)
    requires
        0 <= i <= keys.len(),
    ensures
        keys_error_from(keys, i) is None <==> forall|j: int| i <= j < keys.len() ==> key_error(keys, j) is None,
    decreases keys.len() - i,
{
    if i < keys.len() {
        lemma_keys_ok(keys, i + 1);
    }
}

/// A configuration passes `validate` exactly when every provider's adapter is
/// known, every route declares a namespace and names configured providers,
/// and every declared key is usable with an id of its own.
pub proof fn lemma_config_valid(c: AppConfig)
    ensures
        config_error(c) is None <==> config_valid(c),
{
    let names = provider_names(c.providers@);
    let keys = c.gateway_keys@;
    lemma_providers_ok(c.providers@);
    lemma_routes_ok(names, c.routes@);
    lemma_keys_ok(keys, 0);
    assert forall|j: int| 0 <= j < keys.len() implies (key_error(keys, j) is None <==> (key_ok(#[trigger] keys[j])
        && forall|l: int| 0 <= l < j ==> keys[l].id@ != keys[j].id@)) by {
        if key_error(keys, j) is None {
            assert forall|l: int| 0 <= l < j implies keys[l].id@ != keys[j].id@ by {
                if keys[l].id@ == keys[j].id@ {
                    assert(exists|m: int| 0 <= m < j && #[trigger] keys[m].id@ == keys[j].id@);
                }
            }
        }
    }
    if config_valid(c) {
        assert forall|j: int| 0 <= j < keys.len() implies key_error(keys, j) is None by {
            assert(key_ok(keys[j]));
            assert forall|l: int| 0 <= l < j implies keys[l].id@ != keys[j].id@ by {
                assert(keys[l].id@ != keys[j].id@);
            }
        }
    }
    if config_error(c) is None {
        assert forall|a: int, b: int| 0 <= a < b < keys.len() implies (#[trigger] keys[a]).id@ != (#[trigger] keys[b]).id@ by {
            assert(key_error(keys, b) is None);
        }
        assert forall|a: int| 0 <= a < keys.len() implies key_ok(#[trigger] keys[a]) by {
            assert(key_error(keys, a) is None);
        }
    }
}

} // verus!
