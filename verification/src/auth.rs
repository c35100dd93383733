//! Who is calling: bearer tokens, gateway key rows, and the admin root token.
use vstd::prelude::*;
use vstd::string::*;
use vstd::utf8::*;
use crate::error::ApiError;
use crate::headers::{HeaderList, header_text};
use crate::security::{MasterKey, ct_eq, derive_hash, gateway_key_prefix, key_hash, parse_gateway_key};
use crate::text::{has_prefix, strip_prefix, trim, trimmed};

verus! {

broadcast use encode_utf8_decode_utf8;

/// The token of an `Authorization: Bearer <token>` header, trimmed; `None`
/// when the header is missing, not text, of another scheme, or empty.
pub open spec fn bearer_of(hs: Seq<crate::headers::Header>) -> Option<Seq<char>> {
    match header_text(hs, "authorization"@) {
        Some(t) => if has_prefix(t, "Bearer "@) {
            let rest = trimmed(t.skip("Bearer "@.len() as int));
            if rest.len() == 0 {
                None
            } else {
                Some(rest)
            }
        } else {
            None
        },
        None => None,
    }
}

pub fn extract_bearer(headers: &HeaderList) -> (r: Option<String>)
    ensures
        match bearer_of(headers.entries@) {
            Some(t) => r matches Some(s) && s@ == t,
            None => r is None,
        },
{
    let h = headers.get_str("authorization")?;
    let rest = strip_prefix(h.as_str(), "Bearer ")?;
    let t = trim(rest.as_str());
    if t.as_str().unicode_len() == 0 {
        None
    } else {
        Some(t)
    }
}

/// The stored hash to look a presented gateway key up by; a token without
/// a gateway key prefix is refused before any lookup.
pub fn gateway_key_lookup_hash(token: &str, master: &MasterKey) -> (r: Result<Vec<u8>, ApiError>)
    ensures
        gateway_key_prefix(token@) is None ==> r == Err::<Vec<u8>, ApiError>(ApiError::Unauthorized),
        gateway_key_prefix(token@) is Some ==> (r matches Ok(h) && h@ == key_hash(master.0@, token@)),
{
    if parse_gateway_key(token).is_none() {
        return Err(ApiError::Unauthorized);
    }
    Ok(derive_hash(master, token))
}

/// A stored key authenticates while it is active and not expired.
pub open spec fn key_usable(status: Seq<char>, expires_at: Option<i64>, now_ms: i64) -> bool {
    status == "active"@ && match expires_at {
        Some(e) => e > now_ms,
        None => true,
    }
}

pub fn check_key_row(status: &str, expires_at: Option<i64>, now_ms: i64) -> (r: Result<(), ApiError>)
    ensures
        key_usable(status@, expires_at, now_ms) ==> r is Ok,
        !key_usable(status@, expires_at, now_ms) ==> r == Err::<(), ApiError>(ApiError::Unauthorized),
{
    if !crate::text::str_eq(status, "active") {
        return Err(ApiError::Unauthorized);
    }
    match expires_at {
        Some(exp) => if exp <= now_ms {
            Err(ApiError::Unauthorized)
        } else {
            Ok(())
        },
        None => Ok(()),
    }
}

/// The presented token is the configured root token, compared in constant
/// time.
pub fn is_root_token(token: &str, root: Option<&str>) -> (r: bool)
    ensures
        r == (root matches Some(x) && x@ == token@),
{
    match root {
        Some(x) => {
            let eq = ct_eq(token.as_bytes(), x.as_bytes());
            proof {
                if encode_utf8(token@) == encode_utf8(x@) {
                    assert(decode_utf8(encode_utf8(token@)) == token@);
                    assert(decode_utf8(encode_utf8(x@)) == x@);
                }
            }
            eq
        },
        None => false,
    }
}

/// Who called an admin endpoint.
pub enum AdminPrincipal {
    /// The bootstrap root token.
    Root,
    /// A session issued after a password login.
    User { id: String, username: String },
}

/// The caller of a `/v1/*` endpoint, after its gateway key was accepted.
pub struct GatewayKeyPrincipal {
    pub key_id: String,
    pub project_id: String,
}

/// The claims of an admin session token.
pub struct AdminTokenClaims {
    /// The admin user's id.
    pub sub: String,
    pub username: String,
    /// Expiry, unix seconds.
    pub exp: usize,
    /// Issue time, unix seconds.
    pub iat: usize,
}

/// The claims of a session issued at `now_secs` for `ttl_secs`.
pub fn session_claims(user_id: &str, username: &str, now_secs: i64, ttl_secs: i64) -> (r: AdminTokenClaims)
    requires
        i64::MIN <= now_secs + ttl_secs <= i64::MAX,
    ensures
        r.sub@ == user_id@,
        r.username@ == username@,
        r.iat == now_secs as usize,
        r.exp == (now_secs + ttl_secs) as usize,
{
    AdminTokenClaims {
        sub: String::from_str(user_id),
        username: String::from_str(username),
        iat: now_secs as usize,
        exp: (now_secs + ttl_secs) as usize,
    }
}

/// The admin caller: root when the token is the root token, else the user
/// named by the verified session claims; unauthorized when the token is
/// neither.
pub fn admin_principal(is_root: bool, session: Option<AdminTokenClaims>) -> (r: Result<AdminPrincipal, ApiError>)
    ensures
        is_root ==> r matches Ok(AdminPrincipal::Root),
        !is_root ==> match session {
            Some(c) => r matches Ok(AdminPrincipal::User { id: i, username: u }) && i@ == c.sub@
                && u@ == c.username@,
            None => r == Err::<AdminPrincipal, ApiError>(ApiError::Unauthorized),
        },
{
    if is_root {
        return Ok(AdminPrincipal::Root);
    }
    match session {
        Some(c) => Ok(AdminPrincipal::User { id: c.sub, username: c.username }),
        None => Err(ApiError::Unauthorized),
    }
}

/// The caller behind a stored key row found by the presented key's hash:
/// accepted while the row is active and not expired.
pub fn key_principal(
    row_id: String,
    row_project_id: String,
    status: &str,
    expires_at: Option<i64>,
    now_ms: i64,
) -> (r: Result<GatewayKeyPrincipal, ApiError>)
    ensures
        key_usable(status@, expires_at, now_ms) ==> (r matches Ok(p) && p.key_id@ == row_id@
            && p.project_id@ == row_project_id@),
        !key_usable(status@, expires_at, now_ms) ==> r == Err::<GatewayKeyPrincipal, ApiError>(
            ApiError::Unauthorized,
        ),
{
    check_key_row(status, expires_at, now_ms)?;
    Ok(GatewayKeyPrincipal { key_id: row_id, project_id: row_project_id })
}

} // verus!
