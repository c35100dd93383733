//! Checks on admin API requests, and the dimensions of cost reports.
use vstd::prelude::*;
use vstd::string::*;
use vstd::utf8::*;
use crate::auth::AdminPrincipal;
use crate::error::{ApiError, GatewayError};
use crate::security::{
    KeyEnv, MasterKey, aes256gcm_sealed, gcm_plaintext_max, encrypt_credential, generate_gateway_key, key_hash,
    key_prefix, last_chars, secret_len, is_alnum,
};
use crate::text::{ascii_lower, chars_of, push_str, string_of, to_ascii_lower, trim, trimmed, str_eq};

verus! {

/// The environment of a new key when the request names none.
pub fn default_env() -> (r: String)
    ensures
        r@ == "live"@,
{
    String::from_str("live")
}

/// The environment named in a key creation request: `live` or `test`.
pub fn parse_env_request(env: &str) -> (r: Result<KeyEnv, ApiError>)
    ensures
        env@ == "live"@ ==> r == Ok::<KeyEnv, ApiError>(KeyEnv::Live),
        env@ == "test"@ ==> r == Ok::<KeyEnv, ApiError>(KeyEnv::Test),
        env@ != "live"@ && env@ != "test"@ ==> (r matches Err(ApiError::BadRequest(m)) && m@
            == "invalid env '"@ + env@ + "', expected live or test"@),
{
    proof {
        reveal_strlit("live");
        reveal_strlit("test");
        assert("live"@[0] != "test"@[0]);
        assert("live"@ != "test"@);
    }
    match KeyEnv::parse(env) {
        Some(e) => Ok(e),
        None => {
            let mut m = String::from_str("invalid env '");
            push_str(&mut m, env);
            push_str(&mut m, "', expected live or test");
            Err(ApiError::BadRequest(m))
        },
    }
}

/// A new admin needs a username and a password of at least 6 bytes.
pub fn check_new_admin(username: &str, password: &str) -> (r: Result<(), ApiError>)
    ensures
        (username@.len() == 0 || encode_utf8(password@).len() < 6) ==> (r matches Err(
            ApiError::BadRequest(m),
        ) && m@ == "username required, password >= 6 chars"@),
        !(username@.len() == 0 || encode_utf8(password@).len() < 6) ==> r is Ok,
{
    let bytes = password.as_bytes();
    if username.unicode_len() == 0 || bytes.len() < 6 {
        Err(ApiError::BadRequest(String::from_str("username required, password >= 6 chars")))
    } else {
        Ok(())
    }
}

/// A stored provider credential needs a key.
pub fn check_new_credential(api_key: &str) -> (r: Result<(), ApiError>)
    ensures
        api_key@.len() == 0 ==> (r matches Err(ApiError::BadRequest(m)) && m@
            == "api_key required"@),
        api_key@.len() != 0 ==> r is Ok,
{
    if api_key.unicode_len() == 0 {
        Err(ApiError::BadRequest(String::from_str("api_key required")))
    } else {
        Ok(())
    }
}

/// The (provider, model) of a price override, trimmed; both are required.
pub fn pricing_key(provider: &str, model: &str) -> (r: Result<(String, String), ApiError>)
    ensures
        (trimmed(provider@).len() == 0 || trimmed(model@).len() == 0) ==> (r matches Err(
            ApiError::BadRequest(m),
        ) && m@ == "provider and model are required"@),
        !(trimmed(provider@).len() == 0 || trimmed(model@).len() == 0) ==> (r matches Ok(k)
            && k.0@ == trimmed(provider@) && k.1@ == trimmed(model@)),
{
    let p = trim(provider);
    let m = trim(model);
    if p.as_str().unicode_len() == 0 || m.as_str().unicode_len() == 0 {
        Err(ApiError::BadRequest(String::from_str("provider and model are required")))
    } else {
        Ok((p, m))
    }
}

/// A dimension a cost report is grouped by.
#[derive(Debug, Clone, Copy, PartialEq, Eq, Structural)]
pub enum AggregateDimension {
    Provider,
    Model,
    Day,
    Hour,
    GatewayKey,
}

/// The dimension a trimmed, lowered name stands for.
pub open spec fn dimension_named(name: Seq<char>) -> Option<AggregateDimension> {
    if name == "provider"@ {
        Some(AggregateDimension::Provider)
    } else if name == "model"@ {
        Some(AggregateDimension::Model)
    } else if name == "day"@ {
        Some(AggregateDimension::Day)
    } else if name == "hour"@ {
        Some(AggregateDimension::Hour)
    } else if name == "gateway_key"@ || name == "key"@ {
        Some(AggregateDimension::GatewayKey)
    } else {
        None
    }
}

/// `s.split(',')` after `cur`, the piece read so far.
pub open spec fn split_commas_from(s: Seq<char>, cur: Seq<char>) -> Seq<Seq<char>>
    decreases s.len(),
{
    if s.len() == 0 {
        seq![cur]
    } else if s[0] == ',' {
        seq![cur] + split_commas_from(s.drop_first(), Seq::empty())
    } else {
        split_commas_from(s.drop_first(), cur.push(s[0]))
    }
}

/// `s.split(',')`.
pub open spec fn split_commas(s: Seq<char>) -> Seq<Seq<char>> {
    split_commas_from(s, Seq::empty())
}

/// The dimensions named by the pieces, unknown names skipped.
pub open spec fn dimensions_of(pieces: Seq<Seq<char>>) -> Seq<AggregateDimension>
    decreases pieces.len(),
{
    if pieces.len() == 0 {
        Seq::empty()
    } else {
        match dimension_named(ascii_lower(trimmed(pieces.last()))) {
            Some(d) => dimensions_of(pieces.drop_last()).push(d),
            None => dimensions_of(pieces.drop_last()),
        }
    }
}

/// The `group_by` query of a cost report, `provider,model` by default.
pub open spec fn group_by_dimensions(group_by: Option<Seq<char>>) -> Seq<AggregateDimension> {
    let text = match group_by {
        Some(g) => g,
        None => "provider,model"@,
    };
    dimensions_of(split_commas(text))
}

fn split_on_commas(s: &str) -> (r: Vec<String>)
    ensures
        r@.map_values(|x: String| x@) == split_commas(s@),
{
    let v = chars_of(s);
    let n = v.len();
    let mut pieces: Vec<String> = Vec::new();
    let mut cur: Vec<char> = Vec::new();
    assert(v@.skip(0) =~= s@);
    assert(pieces@.map_values(|x: String| x@) + split_commas_from(s@, cur@) =~= split_commas(s@));
    for i in 0..n
        invariant
            n == v@.len(),
            v@ == s@,
            pieces@.map_values(|x: String| x@) + split_commas_from(v@.skip(i as int), cur@)
                == split_commas(s@),
    {
        let ghost rest = v@.skip(i as int);
        assert(rest.drop_first() =~= v@.skip(i + 1));
        assert(rest[0] == v@[i as int]);
        if v[i] == ',' {
            let ghost before = pieces@.map_values(|x: String| x@);
            let piece = string_of(&cur);
            pieces.push(piece);
            assert(pieces@.map_values(|x: String| x@) =~= before.push(cur@));
            assert(before + split_commas_from(rest, cur@) =~= before.push(cur@)
                + split_commas_from(rest.drop_first(), Seq::empty()));
            cur = Vec::new();
            assert(cur@ =~= Seq::<char>::empty());
        } else {
            cur.push(v[i]);
        }
    }
    let ghost before = pieces@.map_values(|x: String| x@);
    assert(v@.skip(n as int) =~= Seq::<char>::empty());
    pieces.push(string_of(&cur));
    assert(pieces@.map_values(|x: String| x@) =~= before.push(cur@));
    assert(before + seq![cur@] =~= before.push(cur@));
    pieces
}

fn dimension_of(piece: &str) -> (r: Option<AggregateDimension>)
    ensures
        r == dimension_named(ascii_lower(trimmed(piece@))),
{
    let t = trim(piece);
    let l = to_ascii_lower(t.as_str());
    let l = l.as_str();
    if str_eq(l, "provider") {
        Some(AggregateDimension::Provider)
    } else if str_eq(l, "model") {
        Some(AggregateDimension::Model)
    } else if str_eq(l, "day") {
        Some(AggregateDimension::Day)
    } else if str_eq(l, "hour") {
        Some(AggregateDimension::Hour)
    } else if str_eq(l, "gateway_key") || str_eq(l, "key") {
        Some(AggregateDimension::GatewayKey)
    } else {
        None
    }
}

/// The dimensions a cost report is grouped by.
pub fn parse_group_by(group_by: Option<&str>) -> (r: Vec<AggregateDimension>)
    ensures
        r@ == group_by_dimensions(
            match group_by {
                Some(g) => Some(g@),
                None => None,
            },
        ),
{
    let pieces = match group_by {
        Some(g) => split_on_commas(g),
        None => split_on_commas("provider,model"),
    };
    let ghost ps = pieces@.map_values(|x: String| x@);
    let mut out: Vec<AggregateDimension> = Vec::new();
    let n = pieces.len();
    for i in 0..n
        invariant
            n == pieces@.len(),
            ps == pieces@.map_values(|x: String| x@),
            out@ == dimensions_of(ps.take(i as int)),
    {
        assert(ps.take(i + 1).drop_last() =~= ps.take(i as int));
        assert(ps.take(i + 1).last() == pieces@[i as int]@);
        match dimension_of(pieces[i].as_str()) {
            Some(d) => out.push(d),
            None => {},
        }
    }
    assert(ps.take(n as int) =~= ps);
    out
}

/// The project named in a request, else the gateway's default project.
pub fn project_or_default(project_id: &Option<String>, default_project_id: &str) -> (r: String)
    ensures
        r@ == match project_id {
            Some(p) => p@,
            None => default_project_id@,
        },
{
    match project_id {
        Some(p) => String::from_str(p.as_str()),
        None => String::from_str(default_project_id),
    }
}

/// `POST /admin/keys`.
pub struct CreateKeyRequest {
    pub name: String,
    /// `live` or `test`; `live` when absent.
    pub env: String,
    pub project_id: Option<String>,
    pub scopes: Vec<String>,
    /// Unix milliseconds.
    pub expires_at: Option<i64>,
}

/// The answer to a key creation; the secret is shown this once.
pub struct CreateKeyResponse {
    pub id: String,
    pub name: String,
    pub prefix: String,
    pub last4: String,
    pub secret: String,
    pub created_at: i64,
}

pub struct KeySummary {
    pub id: String,
    pub project_id: String,
    pub name: String,
    pub prefix: String,
    pub last4: String,
    pub status: String,
    pub created_at: i64,
    pub last_used_at: Option<i64>,
    pub expires_at: Option<i64>,
}

pub struct ListKeysQuery {
    pub project_id: Option<String>,
}

/// A key ready to be stored (only its hash is stored), with its plaintext
/// for the one-time answer.
pub struct NewKey {
    pub project_id: String,
    pub name: String,
    pub prefix: String,
    pub hash: Vec<u8>,
    pub last4: String,
    pub scopes: Vec<String>,
    pub expires_at: Option<i64>,
    pub plaintext: String,
}

pub open spec fn strings_view(v: Seq<String>) -> Seq<Seq<char>> {
    v.map_values(|s: String| s@)
}

fn copy_strings(v: &Vec<String>) -> (r: Vec<String>)
    ensures
        strings_view(r@) == strings_view(v@),
{
    let mut out: Vec<String> = Vec::new();
    let n = v.len();
    for i in 0..n
        invariant
            n == v@.len(),
            strings_view(out@) == strings_view(v@.take(i as int)),
    {
        let ghost before = out@;
        out.push(String::from_str(v[i].as_str()));
        assert(strings_view(out@) =~= strings_view(before).push(v@[i as int]@));
        assert(strings_view(v@.take(i + 1)) =~= strings_view(v@.take(i as int)).push(v@[i as int]@));
    }
    assert(v@.take(n as int) =~= v@);
    out
}

/// Mints the key a creation request asks for.
pub fn prepare_key(req: &CreateKeyRequest, default_project_id: &str, master: &MasterKey) -> (r: Result<NewKey, ApiError>)
    ensures
        req.env@ != "live"@ && req.env@ != "test"@ ==> (r matches Err(ApiError::BadRequest(m)) && m@
            == "invalid env '"@ + req.env@ + "', expected live or test"@),
        (req.env@ == "live"@ || req.env@ == "test"@) ==> (r matches Ok(k) && {
            let env = if req.env@ == "live"@ {
                KeyEnv::Live
            } else {
                KeyEnv::Test
            };
            &&& k.prefix@ == key_prefix(env)
            &&& k.plaintext@.len() == key_prefix(env).len() + secret_len()
            &&& k.plaintext@.take(key_prefix(env).len() as int) == key_prefix(env)
            &&& forall|i: int| key_prefix(env).len() <= i < k.plaintext@.len() ==> is_alnum(#[trigger] k.plaintext@[i])
            &&& k.last4@ == last_chars(k.plaintext@, 4)
            &&& k.hash@ == key_hash(master.0@, k.plaintext@)
            &&& k.project_id@ == match req.project_id {
                Some(p) => p@,
                None => default_project_id@,
            }
            &&& k.name@ == req.name@
            &&& strings_view(k.scopes@) == strings_view(req.scopes@)
            &&& k.expires_at == req.expires_at
        }),
{
    let env = parse_env_request(req.env.as_str())?;
    proof {
        reveal_strlit("live");
        reveal_strlit("test");
        assert("live"@[0] != "test"@[0]);
    }
    let secret = match generate_gateway_key(env, master) {
        Ok(s) => s,
        Err(e) => {
            return Err(ApiError::Gateway(e));
        },
    };
    Ok(NewKey {
        project_id: project_or_default(&req.project_id, default_project_id),
        name: String::from_str(req.name.as_str()),
        prefix: secret.prefix,
        hash: secret.hash,
        last4: secret.last4,
        scopes: copy_strings(&req.scopes),
        expires_at: req.expires_at,
        plaintext: secret.plaintext,
    })
}

/// `POST /admin/auth/login`.
pub struct LoginRequest {
    pub username: String,
    pub password: String,
}

pub struct LoginResponse {
    pub token: String,
    pub username: String,
    /// Unix seconds.
    pub expires_at: i64,
}

/// Lifetime of an admin session: 12 hours.
pub const SESSION_TTL_SECS: i64 = 43200;

/// `GET /admin/auth/me`.
pub struct MeResponse {
    pub principal: &'static str,
    pub username: Option<String>,
    pub id: Option<String>,
}

pub fn me(principal: AdminPrincipal) -> (r: MeResponse)
    ensures
        match principal {
            AdminPrincipal::Root => r.principal@ == "root"@ && r.username is None && r.id is None,
            AdminPrincipal::User { id, username } => r.principal@ == "user"@ && (r.username matches Some(u)
                && u@ == username@) && (r.id matches Some(i) && i@ == id@),
        },
{
    match principal {
        AdminPrincipal::Root => MeResponse { principal: "root", username: None, id: None },
        AdminPrincipal::User { id, username } => MeResponse {
            principal: "user",
            username: Some(username),
            id: Some(id),
        },
    }
}

/// `POST /admin/auth/admins`.
pub struct CreateAdminRequest {
    pub username: String,
    pub password: String,
}

pub struct CreateAdminResponse {
    pub id: String,
    pub username: String,
}

pub struct AdminUserSummary {
    pub id: String,
    pub username: String,
    pub created_at: i64,
    pub last_login_at: Option<i64>,
}

/// `GET /admin/budgets`.
pub struct BudgetsQuery {
    pub project_id: Option<String>,
}

/// `GET /admin/cost`.
pub struct CostQuery {
    pub project_id: Option<String>,
    pub from: Option<i64>,
    pub to: Option<i64>,
    pub group_by: Option<String>,
}

/// What a cost report aggregates.
pub struct AggregateQuery {
    pub project_id: Option<String>,
    pub from_ts: Option<i64>,
    pub to_ts: Option<i64>,
    pub group_by: Vec<AggregateDimension>,
}

pub open spec fn opt_text(o: Option<String>) -> Option<Seq<char>> {
    match o {
        Some(s) => Some(s@),
        None => None,
    }
}

/// The aggregation a cost query asks for; its project defaults to the
/// gateway's default project.
pub fn aggregate_query(q: &CostQuery, default_project_id: &str) -> (r: AggregateQuery)
    ensures
        r.project_id matches Some(p) && p@ == match q.project_id {
            Some(x) => x@,
            None => default_project_id@,
        },
        r.from_ts == q.from,
        r.to_ts == q.to,
        r.group_by@ == group_by_dimensions(opt_text(q.group_by)),
{
    let group_by = match &q.group_by {
        Some(g) => parse_group_by(Some(g.as_str())),
        None => parse_group_by(None),
    };
    AggregateQuery {
        project_id: Some(project_or_default(&q.project_id, default_project_id)),
        from_ts: q.from,
        to_ts: q.to,
        group_by,
    }
}

/// `GET /admin/logs`.
pub struct ListLogsQuery {
    pub project_id: Option<String>,
    pub gateway_key_id: Option<String>,
    pub namespace: Option<String>,
    pub model: Option<String>,
    pub status: Option<String>,
    pub from: Option<i64>,
    pub to: Option<i64>,
    pub limit: Option<u32>,
    pub cursor: Option<String>,
}

/// A page of request logs to read.
pub struct LogQuery {
    pub project_id: Option<String>,
    pub gateway_key_id: Option<String>,
    pub namespace: Option<String>,
    pub model: Option<String>,
    pub status: Option<String>,
    pub from_ts: Option<i64>,
    pub to_ts: Option<i64>,
    pub limit: u32,
    pub cursor: Option<String>,
}

fn copy_opt(o: &Option<String>) -> (r: Option<String>)
    ensures
        opt_text(r) == opt_text(*o),
{
    match o {
        Some(s) => Some(String::from_str(s.as_str())),
        None => None,
    }
}

/// The log page a query asks for: the default project and 50 entries unless
/// it says otherwise.
pub fn log_query(q: &ListLogsQuery, default_project_id: &str) -> (r: LogQuery)
    ensures
        r.project_id matches Some(p) && p@ == match q.project_id {
            Some(x) => x@,
            None => default_project_id@,
        },
        opt_text(r.gateway_key_id) == opt_text(q.gateway_key_id),
        opt_text(r.namespace) == opt_text(q.namespace),
        opt_text(r.model) == opt_text(q.model),
        opt_text(r.status) == opt_text(q.status),
        r.from_ts == q.from,
        r.to_ts == q.to,
        r.limit == match q.limit {
            Some(l) => l,
            None => 50,
        },
        opt_text(r.cursor) == opt_text(q.cursor),
{
    LogQuery {
        project_id: Some(project_or_default(&q.project_id, default_project_id)),
        gateway_key_id: copy_opt(&q.gateway_key_id),
        namespace: copy_opt(&q.namespace),
        model: copy_opt(&q.model),
        status: copy_opt(&q.status),
        from_ts: q.from,
        to_ts: q.to,
        limit: match q.limit {
            Some(l) => l,
            None => 50,
        },
        cursor: copy_opt(&q.cursor),
    }
}

/// `POST /admin/pricing/recompute`.
pub struct RecomputeBody {
    pub from: Option<i64>,
    pub to: Option<i64>,
}

/// `POST /admin/providers`.
pub struct CreateCredentialRequest {
    pub provider: String,
    pub name: String,
    pub api_key: String,
    pub project_id: Option<String>,
}

pub struct CredentialSummary {
    pub id: String,
    pub project_id: String,
    pub provider: String,
    pub name: String,
    pub status: String,
    pub created_at: i64,
}

pub struct ListCredentialsQuery {
    pub project_id: Option<String>,
}

/// A provider credential ready to be stored, its key encrypted.
pub struct NewCredential {
    pub project_id: String,
    pub provider: String,
    pub name: String,
    /// `nonce(12) || ciphertext || tag(16)`.
    pub encrypted_key: Vec<u8>,
    pub status: String,
}

/// Encrypts the key of a credential creation request under the master key.
pub fn prepare_credential(req: &CreateCredentialRequest, default_project_id: &str, master: &MasterKey) -> (r: Result<
    NewCredential,
    ApiError,
>)
    ensures
        req.api_key@.len() == 0 ==> (r matches Err(ApiError::BadRequest(m)) && m@
            == "api_key required"@),
        req.api_key@.len() > 0 ==> (r is Ok <==> encode_utf8(req.api_key@).len() <= gcm_plaintext_max()),
        req.api_key@.len() > 0 ==> match r {
            Ok(c) => c.encrypted_key@.len() == 12 + encode_utf8(req.api_key@).len() + 16 && c.encrypted_key@.skip(12) == aes256gcm_sealed(
                master.0@,
                c.encrypted_key@.take(12),
                encode_utf8(req.api_key@),
            ) && c.project_id@ == match req.project_id {
                Some(p) => p@,
                None => default_project_id@,
            } && c.provider@ == req.provider@ && c.name@ == req.name@ && c.status@ == "active"@,
            Err(e) => e matches ApiError::Gateway(GatewayError::Internal(m)) && m@
                == "aes encrypt: aead::Error"@,
        },
{
    check_new_credential(req.api_key.as_str())?;
    let encrypted_key = match encrypt_credential(master, req.api_key.as_str()) {
        Ok(b) => b,
        Err(e) => {
            return Err(ApiError::Gateway(e));
        },
    };
    Ok(NewCredential {
        project_id: project_or_default(&req.project_id, default_project_id),
        provider: String::from_str(req.provider.as_str()),
        name: String::from_str(req.name.as_str()),
        encrypted_key,
        status: String::from_str("active"),
    })
}

} // verus!
