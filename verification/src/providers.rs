//! Upstream provider adapters: how each kind authenticates, and where its
//! credential comes from.
use vstd::prelude::*;
use vstd::string::*;
use vstd::utf8::*;
use vstd::slice::slice_to_vec;
use crate::config::ProviderConfig;
use crate::error::GatewayError;
use crate::headers::{HeaderList, inserted, is_lower, lemma_plain_name_lower, named_in};
use crate::text::{push_str, str_eq, strip_prefix, has_prefix};

verus! {

/// The adapters the gateway knows: `openai` and `anthropic`.
pub open spec fn known_provider_kind(kind: Seq<char>) -> bool {
    kind == "openai"@ || kind == "anthropic"@
}

/// Used when a configuration is loaded to reject unknown provider kinds.
pub fn is_known_provider_kind(kind: &str) -> (r: bool)
    ensures
        r == known_provider_kind(kind@),
{
    str_eq(kind, "openai") || str_eq(kind, "anthropic")
}

/// A byte that `HeaderValue::from_str` accepts: a tab, or at least a space
/// and not DEL.
pub open spec fn value_byte_ok(b: u8) -> bool {
    (b >= 32 && b != 127) || b == 9
}

pub open spec fn header_value_ok(bytes: Seq<u8>) -> bool {
    forall|i: int| 0 <= i < bytes.len() ==> value_byte_ok(#[trigger] bytes[i])
}

/// `HeaderValue::from_str`: the UTF-8 bytes of the text, when every byte is
/// acceptable.
pub fn header_value(s: &str) -> (r: Option<Vec<u8>>)
    ensures
        match r {
            Some(v) => header_value_ok(encode_utf8(s@)) && v@ == encode_utf8(s@),
            None => !header_value_ok(encode_utf8(s@)),
        },
{
    let b = s.as_bytes();
    assert(b@ == encode_utf8(s@));
    let n = b.len();
    for i in 0..n
        invariant
            n == b@.len(),
            b@ == encode_utf8(s@),
            forall|j: int| 0 <= j < i ==> value_byte_ok(#[trigger] b@[j]),
    {
        let x = b[i];
        if !((x >= 32 && x != 127) || x == 9) {
            assert(!value_byte_ok(b@[i as int]));
            return None;
        }
    }
    Some(slice_to_vec(b))
}

/// How requests to an upstream are authenticated.
#[derive(Debug, Clone, Copy, PartialEq, Eq, Structural)]
pub enum AuthKind {
    /// `Authorization: Bearer <key>` and `api-key: <key>`.
    OpenAi,
    /// `x-api-key: <key>` and a default `anthropic-version`.
    Anthropic,
}

pub open spec fn auth_kind_of(kind: Seq<char>) -> Option<AuthKind> {
    if kind == "openai"@ {
        Some(AuthKind::OpenAi)
    } else if kind == "anthropic"@ {
        Some(AuthKind::Anthropic)
    } else {
        None
    }
}

/// The adapter for a provider kind; unknown kinds are refused.
pub fn build_auth_injector(kind: &str) -> (r: Result<AuthKind, GatewayError>)
    ensures
        match auth_kind_of(kind@) {
            Some(a) => r == Ok::<AuthKind, GatewayError>(a),
            None => r matches Err(GatewayError::ProviderUnknown(m)) && m@ == kind@,
        },
{
    if str_eq(kind, "openai") {
        Ok(AuthKind::OpenAi)
    } else if str_eq(kind, "anthropic") {
        Ok(AuthKind::Anthropic)
    } else {
        Err(GatewayError::ProviderUnknown(String::from_str(kind)))
    }
}

/// The headers after setting `name` to the text, when the text is a valid
/// header value; unchanged otherwise.
pub open spec fn with_value(hv: Seq<(Seq<char>, Seq<u8>)>, name: Seq<char>, text: Seq<char>) -> Seq<
    (Seq<char>, Seq<u8>),
> {
    if header_value_ok(encode_utf8(text)) {
        inserted(hv, name, encode_utf8(text))
    } else {
        hv
    }
}

/// The headers after the adapter added the provider's key.
pub open spec fn injected(a: AuthKind, hv: Seq<(Seq<char>, Seq<u8>)>, key: Seq<char>) -> Seq<
    (Seq<char>, Seq<u8>),
> {
    match a {
        AuthKind::OpenAi => with_value(
            with_value(hv, "authorization"@, "Bearer "@ + key),
            "api-key"@,
            key,
        ),
        AuthKind::Anthropic => {
            let h = with_value(hv, "x-api-key"@, key);
            if named_in(h, "anthropic-version"@) {
                h
            } else {
                inserted(h, "anthropic-version"@, encode_utf8("2023-06-01"@))
            }
        },
    }
}

fn set_value(headers: &mut HeaderList, name: &str, text: &str)
    ensures
        final(headers).pairs() == with_value(old(headers).pairs(), name@, text@),
        old(headers).wf() && is_lower(name@) ==> final(headers).wf(),
{
    match header_value(text) {
        Some(v) => headers.insert(name, v),
        None => {},
    }
}

impl AuthKind {
    /// Adds the provider's key to the outgoing headers.
    pub fn inject(&self, headers: &mut HeaderList, api_key: &str)
        ensures
            final(headers).pairs() == injected(*self, old(headers).pairs(), api_key@),
            old(headers).wf() ==> final(headers).wf(),
    {
        proof {
            reveal_strlit("authorization");
            reveal_strlit("api-key");
            reveal_strlit("x-api-key");
            reveal_strlit("anthropic-version");
            lemma_plain_name_lower("authorization"@);
            lemma_plain_name_lower("api-key"@);
            lemma_plain_name_lower("x-api-key"@);
            lemma_plain_name_lower("anthropic-version"@);
        }
        match self {
            AuthKind::OpenAi => {
                let mut bearer = String::from_str("Bearer ");
                push_str(&mut bearer, api_key);
                set_value(headers, "authorization", bearer.as_str());
                set_value(headers, "api-key", api_key);
            },
            AuthKind::Anthropic => {
                set_value(headers, "x-api-key", api_key);
                if !headers.contains("anthropic-version") {
                    let version = "2023-06-01";
                    let v = slice_to_vec(version.as_bytes());
                    headers.insert("anthropic-version", v);
                }
            },
        }
    }
}

/// The OpenAI adapter.
pub struct OpenAiAuth;

impl OpenAiAuth {
    pub fn inject(&self, headers: &mut HeaderList, api_key: &str)
        ensures
            final(headers).pairs() == injected(AuthKind::OpenAi, old(headers).pairs(), api_key@),
    {
        AuthKind::OpenAi.inject(headers, api_key)
    }
}

/// The Anthropic adapter.
pub struct AnthropicAuth;

impl AnthropicAuth {
    pub fn inject(&self, headers: &mut HeaderList, api_key: &str)
        ensures
            final(headers).pairs() == injected(AuthKind::Anthropic, old(headers).pairs(), api_key@),
    {
        AuthKind::Anthropic.inject(headers, api_key)
    }
}

/// Where a provider's key comes from.
pub enum CredentialRef {
    /// `env://VAR`: the named variable.
    Env(String),
    /// Any other text, used verbatim.
    Literal(String),
}

/// The reference written in the configuration: `Ok((true, var))` for
/// `env://var`, `Ok((false, text))` for a literal, or the error message.
pub open spec fn reference_of(cred: Seq<char>) -> Result<(bool, Seq<char>), Seq<char>> {
    if has_prefix(cred, "env://"@) {
        let rest = cred.skip("env://"@.len() as int);
        if rest.len() == 0 {
            Err("provider credential env:// reference is missing a var name"@)
        } else {
            Ok((true, rest))
        }
    } else if cred.len() == 0 {
        Err("provider credential is empty"@)
    } else {
        Ok((false, cred))
    }
}

pub open spec fn ref_view(r: CredentialRef) -> (bool, Seq<char>) {
    match r {
        CredentialRef::Env(v) => (true, v@),
        CredentialRef::Literal(v) => (false, v@),
    }
}

/// Reads the credential reference of a provider.
pub fn credential_ref(cfg: &ProviderConfig) -> (r: Result<CredentialRef, GatewayError>)
    ensures
        match reference_of(cfg.credential@) {
            Ok(x) => r matches Ok(c) && ref_view(c) == x,
            Err(m) => r matches Err(GatewayError::Internal(e)) && e@ == m,
        },
{
    let cred = cfg.credential.as_str();
    match strip_prefix(cred, "env://") {
        Some(rest) => {
            if rest.unicode_len() == 0 {
                Err(GatewayError::Internal(String::from_str("provider credential env:// reference is missing a var name")))
            } else {
                Ok(CredentialRef::Env(rest))
            }
        },
        None => {
            if cred.unicode_len() == 0 {
                Err(GatewayError::Internal(String::from_str("provider credential is empty")))
            } else {
                Ok(CredentialRef::Literal(String::from_str(cred)))
            }
        },
    }
}

/// The value under `key` in a list of (key, value) pairs, first match.
pub open spec fn lookup_pair(ps: Seq<(Seq<char>, Seq<char>)>, key: Seq<char>) -> Option<Seq<char>>
    decreases ps.len(),
{
    if ps.len() == 0 {
        None
    } else {
        match lookup_pair(ps.drop_last(), key) {
            Some(v) => Some(v),
            None => if ps.last().0 == key {
                Some(ps.last().1)
            } else {
                None
            },
        }
    }
}

pub open spec fn pair_views(ps: Seq<(String, String)>) -> Seq<(Seq<char>, Seq<char>)> {
    ps.map_values(|p: (String, String)| (p.0@, p.1@))
}

/// The provider's key: a literal as written; for `env://VAR` the in-process
/// override for `VAR`, else the variable's value as read by the caller
/// (`env_value`), else an error.
pub open spec fn credential_of(
    cred: Seq<char>,
    overrides: Seq<(Seq<char>, Seq<char>)>,
    env_value: Option<Seq<char>>,
) -> Result<Seq<char>, Seq<char>> {
    match reference_of(cred) {
        Err(m) => Err(m),
        Ok((is_env, text)) => if !is_env {
            Ok(text)
        } else {
            match lookup_pair(overrides, text) {
                Some(v) => Ok(v),
                None => match env_value {
                    Some(v) => Ok(v),
                    None => Err("env var "@ + text + " not set for provider credential"@),
                },
            }
        },
    }
}

pub open spec fn opt_view(o: Option<String>) -> Option<Seq<char>> {
    match o {
        Some(s) => Some(s@),
        None => None,
    }
}

fn find_override(overrides: &Vec<(String, String)>, key: &str) -> (r: Option<String>)
    ensures
        opt_view(r) == lookup_pair(pair_views(overrides@), key@),
{
    let n = overrides.len();
    for i in 0..n
        invariant
            n == overrides@.len(),
            lookup_pair(pair_views(overrides@.take(i as int)), key@) is None,
    {
        assert(pair_views(overrides@.take(i + 1)).drop_last() =~= pair_views(overrides@.take(i as int)));
        if str_eq(overrides[i].0.as_str(), key) {
            proof {
                let ps = pair_views(overrides@);
                assert(ps.take(i + 1) =~= pair_views(overrides@.take(i + 1)));
                assert(ps.take(i + 1).drop_last() =~= pair_views(overrides@.take(i as int)));
                assert(ps.take(i + 1).last() == (overrides@[i as int].0@, overrides@[i as int].1@));
                lemma_lookup_prefix(ps, i + 1, key@);
            }
            return Some(String::from_str(overrides[i].1.as_str()));
        }
    }
    assert(overrides@.take(n as int) =~= overrides@);
    None
}

/// A match found in a prefix is the match of the whole.
proof fn lemma_lookup_prefix(ps: Seq<(Seq<char>, Seq<char>)>, k: int, key: Seq<char>)
    requires
        0 < k <= ps.len(),
        lookup_pair(ps.take(k), key) is Some,
    ensures
        lookup_pair(ps, key) == lookup_pair(ps.take(k), key),
    decreases ps.len() - k,
{
    if k < ps.len() {
        assert(ps.take(k + 1).drop_last() =~= ps.take(k));
        lemma_lookup_prefix(ps, k + 1, key);
    } else {
        assert(ps.take(k) =~= ps);
    }
}

/// Resolves a provider's key. `env_value` is the value of the variable that
/// an `env://` reference names, as read from the process environment.
pub fn resolve_credential(
    cfg: &ProviderConfig,
    env_overrides: &Vec<(String, String)>,
    env_value: Option<String>,
) -> (r: Result<String, GatewayError>)
    ensures
        match credential_of(cfg.credential@, pair_views(env_overrides@), opt_view(env_value)) {
            Ok(v) => r matches Ok(s) && s@ == v,
            Err(m) => r matches Err(GatewayError::Internal(e)) && e@ == m,
        },
{
    match credential_ref(cfg)? {
        CredentialRef::Literal(v) => Ok(v),
        CredentialRef::Env(name) => match find_override(env_overrides, name.as_str()) {
            Some(v) => Ok(v),
            None => match env_value {
                Some(v) => Ok(v),
                None => {
                    let mut m = String::from_str("env var ");
                    push_str(&mut m, name.as_str());
                    push_str(&mut m, " not set for provider credential");
                    Err(GatewayError::Internal(m))
                },
            },
        },
    }
}

/// A provider ready for forwarding.
pub struct ResolvedProvider {
    pub base_url: String,
    pub api_key: String,
    pub auth: AuthKind,
    /// Extra headers set on every request to this provider.
    pub extra_headers: Vec<(String, String)>,
}

/// Resolves a configured provider: its adapter (by `kind`, else by its
/// name), then its key.
pub fn resolve_provider(
    name: &str,
    cfg: &ProviderConfig,
    env_overrides: &Vec<(String, String)>,
    env_value: Option<String>,
) -> (r: Result<ResolvedProvider, GatewayError>)
    ensures
        ({
            let kind = match cfg.kind {
                Some(k) => k@,
                None => name@,
            };
            match auth_kind_of(kind) {
                None => r matches Err(GatewayError::ProviderUnknown(m)) && m@ == kind,
                Some(a) => match credential_of(
                    cfg.credential@,
                    pair_views(env_overrides@),
                    opt_view(env_value),
                ) {
                    Ok(v) => r matches Ok(p) && p.auth == a && p.api_key@ == v && p.base_url@
                        == cfg.base_url@ && pair_views(p.extra_headers@) == pair_views(
                        cfg.headers@,
                    ),
                    Err(m) => r matches Err(GatewayError::Internal(e)) && e@ == m,
                },
            }
        }),
{
    let auth = match &cfg.kind {
        Some(k) => build_auth_injector(k.as_str())?,
        None => build_auth_injector(name)?,
    };
    let api_key = resolve_credential(cfg, env_overrides, env_value)?;
    Ok(ResolvedProvider {
        base_url: String::from_str(cfg.base_url.as_str()),
        api_key,
        auth,
        extra_headers: copy_pairs(&cfg.headers),
    })
}

pub fn copy_pairs(ps: &Vec<(String, String)>) -> (r: Vec<(String, String)>)
    ensures
        pair_views(r@) == pair_views(ps@),
{
    let mut out: Vec<(String, String)> = Vec::new();
    let n = ps.len();
    for i in 0..n
        invariant
            n == ps@.len(),
            pair_views(out@) == pair_views(ps@.take(i as int)),
    {
        let ghost before = out@;
        out.push((String::from_str(ps[i].0.as_str()), String::from_str(ps[i].1.as_str())));
        assert(pair_views(out@) =~= pair_views(before).push((ps@[i as int].0@, ps@[i as int].1@)));
        assert(pair_views(ps@.take(i + 1)) =~= pair_views(ps@.take(i as int)).push(
            (ps@[i as int].0@, ps@[i as int].1@),
        ));
    }
    assert(ps@.take(n as int) =~= ps@);
    out
}

/// The engine's provider for a request: the entry named `name`, first
/// match; an unknown name is refused.
pub fn find_provider(providers: &Vec<(String, ResolvedProvider)>, name: &str) -> (r: Result<usize, GatewayError>)
    ensures
        match r {
            Ok(i) => i < providers@.len() && providers@[i as int].0@ == name@ && forall|j: int|
                0 <= j < i ==> (#[trigger] providers@[j]).0@ != name@,
            Err(e) => (e matches GatewayError::ProviderUnknown(n) && n@ == name@) && forall|j: int|
                0 <= j < providers@.len() ==> (#[trigger] providers@[j]).0@ != name@,
        },
{
    let n = providers.len();
    for i in 0..n
        invariant
            n == providers@.len(),
            forall|j: int| 0 <= j < i ==> (#[trigger] providers@[j]).0@ != name@,
    {
        if str_eq(providers[i].0.as_str(), name) {
            return Ok(i);
        }
    }
    Err(GatewayError::ProviderUnknown(String::from_str(name)))
}

} // verus!
