//! Gateway API keys, the master key, upstream credential encryption and admin
//! password hashing.
use vstd::prelude::*;
use vstd::string::*;
use vstd::utf8::*;
use vstd::slice::slice_to_vec;
use base64::Engine;
use aes_gcm::aead::{Aead, KeyInit};
use argon2::password_hash::{PasswordHasher, PasswordVerifier};
use rand::{Rng, RngCore};
use subtle::ConstantTimeEq;
use crate::error::GatewayError;
use crate::text::{has_prefix, starts_with, push_str, trim, trimmed, utf8_string};

verus! {

broadcast use encode_utf8_decode_utf8, encode_utf8_valid_utf8;

/// Environment a gateway key is minted for.
#[derive(Debug, Clone, Copy, PartialEq, Eq, Structural)]
pub enum KeyEnv {
    Live,
    Test,
}

pub open spec fn key_prefix(env: KeyEnv) -> Seq<char> {
    match env {
        KeyEnv::Live => "sk-gw-live-"@,
        KeyEnv::Test => "sk-gw-test-"@,
    }
}

/// Length of the random part of a minted key.
pub open spec fn secret_len() -> nat {
    32
}

impl KeyEnv {
    pub fn prefix(self) -> (r: &'static str)
        ensures
            r@ == key_prefix(self),
    {
        match self {
            KeyEnv::Live => "sk-gw-live-",
            KeyEnv::Test => "sk-gw-test-",
        }
    }

    /// `live` or `test`.
    pub fn parse(s: &str) -> (r: Option<Self>)
        ensures
            r == (if s@ == "live"@ {
                Some(KeyEnv::Live)
            } else if s@ == "test"@ {
                Some(KeyEnv::Test)
            } else {
                None
            }),
    {
        if crate::text::str_eq(s, "live") {
            Some(KeyEnv::Live)
        } else if crate::text::str_eq(s, "test") {
            Some(KeyEnv::Test)
        } else {
            None
        }
    }
}

/// The prefix of a well-formed gateway key, if it has one.
pub open spec fn gateway_key_prefix(secret: Seq<char>) -> Option<Seq<char>> {
    if has_prefix(secret, "sk-gw-live-"@) {
        Some("sk-gw-live-"@)
    } else if has_prefix(secret, "sk-gw-test-"@) {
        Some("sk-gw-test-"@)
    } else {
        None
    }
}

pub fn parse_gateway_key(secret: &str) -> (r: Option<&'static str>)
    ensures
        match r {
            Some(p) => gateway_key_prefix(secret@) == Some(p@),
            None => gateway_key_prefix(secret@) is None,
        },
{
    if starts_with(secret, "sk-gw-live-") {
        Some("sk-gw-live-")
    } else if starts_with(secret, "sk-gw-test-") {
        Some("sk-gw-test-")
    } else {
        None
    }
}

/// 32-byte master key: AES-256-GCM key for stored credentials and the keyed
/// hash key of gateway keys.
pub struct MasterKey(pub [u8; 32]);

impl MasterKey {
    pub fn as_bytes(&self) -> (r: &[u8; 32])
        ensures
            r@ == self.0@,
    {
        &self.0
    }
}

/// Standard-alphabet base64 decoding of the given text: the bytes, or the
/// decoder's error message.
pub uninterp spec fn base64_decoded(text: Seq<char>) -> Result<Seq<u8>, Seq<char>>;

/// Calls `base64::engine::general_purpose::STANDARD.decode`. Trusted: the
/// result is a function of the text alone, the decoded bytes or the rendered
/// decode error.
#[verifier::external_body]
fn base64_decode(text: &str) -> (r: Result<Vec<u8>, String>)
    ensures
        match r {
            Ok(v) => base64_decoded(text@) == Ok::<Seq<u8>, Seq<char>>(v@),
            Err(m) => base64_decoded(text@) == Err::<Seq<u8>, Seq<char>>(m@),
        },
{
    base64::engine::general_purpose::STANDARD.decode(text).map_err(|e| e.to_string())
}

pub open spec fn master_key_result(text: Seq<char>) -> Result<Seq<u8>, Seq<char>> {
    match base64_decoded(trimmed(text)) {
        Err(e) => Err("master key base64 decode failed: "@ + e),
        Ok(raw) => if raw.len() == 32 {
            Ok(raw)
        } else {
            Err("master key must decode to exactly 32 bytes (got "@ + crate::text::decimal(raw.len()) + ")"@)
        },
    }
}

impl MasterKey {
    /// Decodes a base64 master key (surrounding whitespace ignored); it must
    /// decode to exactly 32 bytes.
    pub fn from_base64(s: &str) -> (r: Result<Self, GatewayError>)
        ensures
            match master_key_result(s@) {
                Ok(raw) => r matches Ok(k) && k.0@ == raw,
                Err(m) => r matches Err(GatewayError::Internal(e)) && e@ == m,
            },
    {
        let t = trim(s);
        match base64_decode(t.as_str()) {
            Err(e) => {
                let mut m = String::from_str("master key base64 decode failed: ");
                push_str(&mut m, e.as_str());
                Err(GatewayError::Internal(m))
            },
            Ok(raw) => {
                if raw.len() != 32 {
                    let mut m = String::from_str("master key must decode to exactly 32 bytes (got ");
                    let d = crate::text::u64_to_decimal(raw.len() as u64);
                    push_str(&mut m, d.as_str());
                    push_str(&mut m, ")");
                    return Err(GatewayError::Internal(m));
                }
                let mut buf = [0u8; 32];
                for i in 0..32
                    invariant
                        raw@.len() == 32,
                        forall|j: int| 0 <= j < i ==> buf@[j] == raw@[j],
                {
                    buf[i] = raw[i];
                }
                assert(buf@ =~= raw@);
                Ok(MasterKey(buf))
            },
        }
    }
}

/// BLAKE3 in keyed mode (32-byte key) of the given bytes.
pub uninterp spec fn blake3_keyed_digest(key: Seq<u8>, data: Seq<u8>) -> Seq<u8>;

/// Calls `blake3::keyed_hash`. Trusted: the result is the 32-byte keyed
/// digest, a function of the key and the data alone.
#[verifier::external_body]
fn blake3_keyed(key: &[u8; 32], data: &[u8]) -> (r: Vec<u8>)
    ensures
        r@ == blake3_keyed_digest(key@, data@),
        r@.len() == 32,
{
    blake3::keyed_hash(key, data).as_bytes().to_vec()
}

/// Calls `subtle::ConstantTimeEq::ct_eq` on two byte slices. Trusted: the
/// answer is equality of the contents (different lengths are unequal).
#[verifier::external_body]
pub(crate) fn ct_eq(a: &[u8], b: &[u8]) -> (r: bool)
    ensures
        r == (a@ == b@),
{
    a.ct_eq(b).into()
}

/// The deterministic hash under which a gateway key is stored.
pub open spec fn key_hash(master: Seq<u8>, plaintext: Seq<char>) -> Seq<u8> {
    blake3_keyed_digest(master, encode_utf8(plaintext))
}

/// Compute the deterministic 32-byte hash used to index a key in storage.
pub fn derive_hash(master: &MasterKey, plaintext: &str) -> (r: Vec<u8>)
    ensures
        r@ == key_hash(master.0@, plaintext@),
        r@.len() == 32,
{
    blake3_keyed(master.as_bytes(), plaintext.as_bytes())
}

/// Constant-time comparison of a presented key against a stored 32-byte hash.
pub fn verify_gateway_key(presented: &str, master: &MasterKey, stored_hash: &[u8]) -> (r: bool)
    ensures
        r == (stored_hash@.len() == 32 && key_hash(master.0@, presented@) == stored_hash@),
{
    if stored_hash.len() != 32 {
        return false;
    }
    let h = derive_hash(master, presented);
    ct_eq(h.as_slice(), stored_hash)
}

/// ASCII letters and digits.
pub open spec fn is_alnum(c: char) -> bool {
    ('A' <= c && c <= 'Z') || ('a' <= c && c <= 'z') || ('0' <= c && c <= '9')
}

/// Calls `rand::thread_rng().sample_iter(&Alphanumeric).take(n)`. Trusted:
/// `n` characters, each an ASCII letter or digit; which ones is random.
#[verifier::external_body]
fn random_alphanumeric(n: usize) -> (r: String)
    ensures
        r@.len() == n,
        forall|i: int| 0 <= i < n ==> is_alnum(#[trigger] r@[i]),
{
    rand::thread_rng().sample_iter(&rand::distributions::Alphanumeric).take(n).map(char::from).collect()
}

/// The last `n` characters (all of them when fewer).
pub open spec fn last_chars(s: Seq<char>, n: nat) -> Seq<char> {
    if s.len() <= n {
        s
    } else {
        s.skip(s.len() - n)
    }
}

pub fn last_n_chars(s: &str, n: usize) -> (r: String)
    ensures
        r@ == last_chars(s@, n as nat),
{
    let v = crate::text::chars_of(s);
    let len = v.len();
    let start = if len <= n {
        0
    } else {
        len - n
    };
    let t = crate::text::sub_chars(&v, start, len);
    assert(t@ =~= last_chars(s@, n as nat));
    crate::text::string_of(&t)
}

pub struct GatewayKeySecret {
    /// Full plaintext, returned to the caller once, at creation.
    pub plaintext: String,
    pub prefix: String,
    pub last4: String,
    /// 32-byte keyed hash of the plaintext.
    pub hash: Vec<u8>,
}

/// Mint a new gateway key: the environment's prefix followed by 32 random
/// ASCII letters and digits. Only the keyed hash should be persisted.
pub fn generate_gateway_key(env: KeyEnv, master: &MasterKey) -> (r: Result<GatewayKeySecret, GatewayError>)
    ensures
        r matches Ok(k) && {
            &&& k.prefix@ == key_prefix(env)
            &&& k.plaintext@.len() == key_prefix(env).len() + secret_len()
            &&& has_prefix(k.plaintext@, key_prefix(env))
            &&& forall|i: int| key_prefix(env).len() <= i < k.plaintext@.len() ==> is_alnum(#[trigger] k.plaintext@[i])
            &&& k.last4@ == last_chars(k.plaintext@, 4)
            &&& k.hash@ == key_hash(master.0@, k.plaintext@)
            &&& k.hash@.len() == 32
        },
{
    let secret = random_alphanumeric(32);
    let mut plaintext = String::from_str(env.prefix());
    push_str(&mut plaintext, secret.as_str());
    let ghost p = key_prefix(env);
    assert(plaintext@.take(p.len() as int) =~= p);
    assert forall|i: int| p.len() <= i < plaintext@.len() implies is_alnum(#[trigger] plaintext@[i]) by {
        assert(plaintext@[i] == secret@[i - p.len()]);
    }
    let last4 = last_n_chars(plaintext.as_str(), 4);
    let hash = derive_hash(master, plaintext.as_str());
    Ok(GatewayKeySecret { plaintext, prefix: String::from_str(env.prefix()), last4, hash })
}

/// A key that starts with an environment's prefix is recognised as a gateway
/// key with that prefix.
pub proof fn lemma_prefixed_key_recognised(env: KeyEnv, plaintext: Seq<char>)
    requires
        has_prefix(plaintext, key_prefix(env)),
    ensures
        gateway_key_prefix(plaintext) == Some(key_prefix(env)),
{
    reveal_strlit("sk-gw-live-");
    reveal_strlit("sk-gw-test-");
    if env == KeyEnv::Test {
        assert(plaintext.take(11)[6] == 't');
        assert(!has_prefix(plaintext, "sk-gw-live-"@)) by {
            assert(plaintext.take(11)[6] != "sk-gw-live-"@[6]);
        }
    }
}

/// AES-256-GCM encryption (no associated data) under a key and 12-byte nonce:
/// ciphertext followed by the 16-byte tag.
pub uninterp spec fn aes256gcm_sealed(key: Seq<u8>, nonce: Seq<u8>, plaintext: Seq<u8>) -> Seq<u8>;

/// AES-256-GCM decryption: the plaintext, or `None` when authentication fails.
pub uninterp spec fn aes256gcm_opened(key: Seq<u8>, nonce: Seq<u8>, ciphertext: Seq<u8>) -> Option<Seq<u8>>;

/// GCM's limit on the plaintext, `P_MAX`: 2^36 bytes.
pub open spec fn gcm_plaintext_max() -> nat {
    0x10_0000_0000
}

/// Calls `Aes256Gcm::encrypt`. Trusted: it fails exactly when the plaintext
/// is longer than `P_MAX` (2^36 bytes); otherwise the output is the
/// ciphertext, as long as the plaintext, followed by the 16-byte tag, and is a
/// function of key, nonce and plaintext.
#[verifier::external_body]
fn aes_seal(key: &[u8; 32], nonce: &[u8], plaintext: &[u8]) -> (r: Option<Vec<u8>>)
    requires
        nonce@.len() == 12,
    ensures
        r is Some <==> plaintext@.len() <= gcm_plaintext_max(),
        r matches Some(c) ==> c@ == aes256gcm_sealed(key@, nonce@, plaintext@) && c@.len()
            == plaintext@.len() + 16,
{
    let cipher = aes_gcm::Aes256Gcm::new_from_slice(key).ok()?;
    cipher.encrypt(aes_gcm::Nonce::from_slice(nonce), plaintext).ok()
}

/// Calls `Aes256Gcm::decrypt`. Trusted: the result is a function of key,
/// nonce and ciphertext, and decrypting what `encrypt` produced under the same
/// key and nonce from a plaintext within GCM's limit (`P_MAX`) gives back that
/// plaintext (the AEAD correctness property). Nothing is claimed of
/// plaintexts beyond the limit, which `encrypt` refuses.
#[verifier::external_body]
fn aes_open(key: &[u8; 32], nonce: &[u8], ciphertext: &[u8]) -> (r: Option<Vec<u8>>)
    requires
        nonce@.len() == 12,
    ensures
        match r {
            Some(p) => aes256gcm_opened(key@, nonce@, ciphertext@) == Some(p@),
            None => aes256gcm_opened(key@, nonce@, ciphertext@) is None,
        },
        r is None ==> forall|p: Seq<u8>|
            p.len() <= gcm_plaintext_max() ==> ciphertext@ != #[trigger] aes256gcm_sealed(key@, nonce@, p),
        r matches Some(q) ==> forall|p: Seq<u8>|
            p.len() <= gcm_plaintext_max() && ciphertext@ == #[trigger] aes256gcm_sealed(key@, nonce@, p)
                ==> q@ == p,
{
    let cipher = aes_gcm::Aes256Gcm::new_from_slice(key).ok()?;
    cipher.decrypt(aes_gcm::Nonce::from_slice(nonce), ciphertext).ok()
}

/// Calls `rand::thread_rng().fill_bytes` on 12 bytes. Trusted: 12 bytes;
/// their values are random.
#[verifier::external_body]
fn random_nonce() -> (r: Vec<u8>)
    ensures
        r@.len() == 12,
{
    let mut n = [0u8; 12];
    rand::thread_rng().fill_bytes(&mut n);
    n.to_vec()
}

/// Encrypt an API key with AES-256-GCM under the master key and a fresh
/// random nonce. Layout: `nonce(12) || ciphertext || tag(16)`. Fails only
/// on a plaintext longer than GCM allows.
pub fn encrypt_credential(master: &MasterKey, plaintext: &str) -> (r: Result<Vec<u8>, GatewayError>)
    ensures
        r is Ok <==> encode_utf8(plaintext@).len() <= gcm_plaintext_max(),
        match r {
            Ok(out) => out@.len() == 12 + encode_utf8(plaintext@).len() + 16 && out@.skip(12) == aes256gcm_sealed(
                master.0@,
                out@.take(12),
                encode_utf8(plaintext@),
            ),
            Err(e) => e matches GatewayError::Internal(m) && m@ == "aes encrypt: aead::Error"@,
        },
{
    let nonce = random_nonce();
    match aes_seal(master.as_bytes(), nonce.as_slice(), plaintext.as_bytes()) {
        None => Err(GatewayError::Internal(String::from_str("aes encrypt: aead::Error"))),
        Some(ct) => {
            let mut out: Vec<u8> = Vec::new();
            crate::fingerprint::push_bytes(&mut out, nonce.as_slice());
            crate::fingerprint::push_bytes(&mut out, ct.as_slice());
            assert(out@.take(12) =~= nonce@);
            assert(out@.skip(12) =~= ct@);
            Ok(out)
        },
    }
}

/// Decrypt a stored credential: at least 12 bytes (the nonce), then
/// authenticated ciphertext that must decrypt to UTF-8 text.
pub fn decrypt_credential(master: &MasterKey, blob: &[u8]) -> (r: Result<String, GatewayError>)
    ensures
        blob@.len() < 12 ==> (r matches Err(GatewayError::Internal(m)) && m@ == "encrypted credential too short"@),
        blob@.len() >= 12 ==> match aes256gcm_opened(master.0@, blob@.take(12), blob@.skip(12)) {
            None => r matches Err(GatewayError::Internal(m)) && m@ == "aes decrypt: aead::Error"@,
            Some(p) => if valid_utf8(p) {
                r matches Ok(s) && s@ == decode_utf8(p)
            } else {
                r matches Err(GatewayError::Internal(m)) && has_prefix(m@, "credential utf-8: "@)
            },
        },
        forall|p: Seq<char>|
            blob@.len() >= 12 && encode_utf8(p).len() <= gcm_plaintext_max() && blob@.skip(12)
                == #[trigger] aes256gcm_sealed(master.0@, blob@.take(12), encode_utf8(p))
                ==> (r matches Ok(s) && s@ == p),
{
    if blob.len() < 12 {
        return Err(GatewayError::Internal(String::from_str("encrypted credential too short")));
    }
    let nonce = slice_to_vec(vstd::slice::slice_subrange(blob, 0, 12));
    let ct = slice_to_vec(vstd::slice::slice_subrange(blob, 12, blob.len()));
    assert(nonce@ =~= blob@.take(12));
    assert(ct@ =~= blob@.skip(12));
    match aes_open(master.as_bytes(), nonce.as_slice(), ct.as_slice()) {
        None => Err(GatewayError::Internal(String::from_str("aes decrypt: aead::Error"))),
        Some(pt) => match utf8_string(pt) {
            Ok(s) => Ok(s),
            Err(e) => {
                let mut m = String::from_str("credential utf-8: ");
                push_str(&mut m, e.as_str());
                proof {
                    reveal_strlit("credential utf-8: ");
                    assert(m@.take("credential utf-8: "@.len() as int) =~= "credential utf-8: "@);
                }
                Err(GatewayError::Internal(m))
            },
        },
    }
}

/// What checking a password against a stored PHC string gives:
/// `Ok(true)` on a match, `Ok(false)` on a wrong password,
/// `Err((true, message))` when the stored string is not a PHC string, and
/// `Err((false, message))` when verification fails otherwise.
pub uninterp spec fn argon2_verdict(presented: Seq<char>, stored_phc: Seq<char>) -> Result<bool, (bool, Seq<char>)>;

/// Calls `Argon2::default().hash_password` with a fresh random salt and
/// renders the PHC string. Trusted: the string verifies the password it was
/// made from. Which string comes back depends on the salt and is not
/// described, nor is the failure's message.
#[verifier::external_body]
fn argon2_hash(password: &str) -> (r: Result<String, String>)
    ensures
        r matches Ok(phc) ==> (argon2_verdict(password@, phc@) matches Ok(b) && b),
{
    let salt = argon2::password_hash::SaltString::generate(&mut argon2::password_hash::rand_core::OsRng);
    argon2::Argon2::default().hash_password(password.as_bytes(), &salt).map(|h| h.to_string()).map_err(|e| e.to_string())
}

/// Hash an admin password (Argon2, random salt) into a PHC string, which
/// verifies the password.
pub fn hash_password(password: &str) -> (r: Result<String, GatewayError>)
    ensures
        r matches Ok(phc) ==> (argon2_verdict(password@, phc@) matches Ok(b) && b),
        r matches Err(e) ==> e matches GatewayError::Internal(m) && has_prefix(m@, "argon2 hash: "@),
{
    match argon2_hash(password) {
        Ok(phc) => Ok(phc),
        Err(e) => {
            let mut m = String::from_str("argon2 hash: ");
            push_str(&mut m, e.as_str());
            proof {
                reveal_strlit("argon2 hash: ");
                assert(m@.take("argon2 hash: "@.len() as int) =~= "argon2 hash: "@);
            }
            Err(GatewayError::Internal(m))
        },
    }
}

/// The answer of a password check.
pub enum PasswordVerdict {
    Match,
    Mismatch,
    /// The stored hash is not a PHC string; its message.
    Unparsable(String),
    /// Verification failed for another reason; its message.
    Failed(String),
}

pub open spec fn verdict_view(v: PasswordVerdict) -> Result<bool, (bool, Seq<char>)> {
    match v {
        PasswordVerdict::Match => Ok(true),
        PasswordVerdict::Mismatch => Ok(false),
        PasswordVerdict::Unparsable(m) => Err((true, m@)),
        PasswordVerdict::Failed(m) => Err((false, m@)),
    }
}

/// Calls `PasswordHash::new` on the stored hash and, when it parses,
/// `Argon2::default().verify_password`, telling the outcomes apart. Trusted:
/// the verdict is a function of the password and the stored string.
#[verifier::external_body]
fn argon2_check(presented: &str, stored_phc: &str) -> (r: PasswordVerdict)
    ensures
        verdict_view(r) == argon2_verdict(presented@, stored_phc@),
{
    match argon2::password_hash::PasswordHash::new(stored_phc) {
        Err(e) => PasswordVerdict::Unparsable(e.to_string()),
        Ok(parsed) => match argon2::Argon2::default().verify_password(presented.as_bytes(), &parsed) {
            Ok(()) => PasswordVerdict::Match,
            Err(argon2::password_hash::Error::Password) => PasswordVerdict::Mismatch,
            Err(e) => PasswordVerdict::Failed(e.to_string()),
        },
    }
}

/// The answer to a password check: whether it matched, or the message of
/// the internal error.
pub open spec fn password_check(presented: Seq<char>, stored_phc: Seq<char>) -> Result<bool, Seq<char>> {
    match argon2_verdict(presented, stored_phc) {
        Ok(b) => Ok(b),
        Err((unparsable, e)) => Err(
            (if unparsable {
                "parse argon2: "@
            } else {
                "argon2 verify: "@
            }) + e,
        ),
    }
}

/// Check a presented password against a stored PHC string: `Ok(true)` on a
/// match, `Ok(false)` on a wrong password, an internal error otherwise.
pub fn verify_password(presented: &str, stored_phc: &str) -> (r: Result<bool, GatewayError>)
    ensures
        match password_check(presented@, stored_phc@) {
            Ok(b) => r == Ok::<bool, GatewayError>(b),
            Err(m) => r matches Err(GatewayError::Internal(e)) && e@ == m,
        },
{
    match argon2_check(presented, stored_phc) {
        PasswordVerdict::Match => Ok(true),
        PasswordVerdict::Mismatch => Ok(false),
        PasswordVerdict::Unparsable(e) => {
            let mut m = String::from_str("parse argon2: ");
            push_str(&mut m, e.as_str());
            Err(GatewayError::Internal(m))
        },
        PasswordVerdict::Failed(e) => {
            let mut m = String::from_str("argon2 verify: ");
            push_str(&mut m, e.as_str());
            Err(GatewayError::Internal(m))
        },
    }
}

/// A password is accepted by `verify_password` against the hash that
/// `hash_password` made from it.
pub proof fn lemma_password_verifies_against_own_hash(password: Seq<char>, phc: Seq<char>)
    requires
        argon2_verdict(password, phc) matches Ok(b) && b,
    ensures
        password_check(password, phc) == Ok::<bool, Seq<char>>(true),
{
}

} // verus!
