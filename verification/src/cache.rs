//! Response caching: the client's cache directives, the cache key, what a
//! stored response holds, and when a response is read, stored or replayed.
use vstd::prelude::*;
use vstd::string::*;
use vstd::utf8::*;
use crate::config::RouteCacheConfig;
use crate::headers::{HeaderList, header_text, value_text};
use crate::text::{
    ascii_lower, lower_eq, parse_u64, parsed_u64, push_str, trim, trimmed,
};

verus! {

/// Per-request cache directive, from the `X-Gateway-Cache` header.
#[derive(Debug, Clone, Copy, PartialEq, Eq, Structural)]
pub enum CacheDirective {
    /// Read from the cache, write on a miss.
    Default,
    /// Neither read nor write.
    Bypass,
    /// Skip the read; still write on success.
    Refresh,
    /// Read only; a miss is answered without contacting the upstream.
    OnlyIfCached,
}

/// What the cache did for a request, reported in `x-gateway-cache-status`.
#[derive(Debug, Clone, Copy, PartialEq, Eq, Structural)]
pub enum CacheStatus {
    Hit,
    Miss,
    Bypass,
    Refresh,
    Disabled,
}

pub open spec fn status_text(s: CacheStatus) -> Seq<char> {
    match s {
        CacheStatus::Hit => "hit"@,
        CacheStatus::Miss => "miss"@,
        CacheStatus::Bypass => "bypass"@,
        CacheStatus::Refresh => "refresh"@,
        CacheStatus::Disabled => "disabled"@,
    }
}

impl CacheStatus {
    pub fn as_header(self) -> (r: &'static str)
        ensures
            r@ == status_text(self),
    {
        match self {
            CacheStatus::Hit => "hit",
            CacheStatus::Miss => "miss",
            CacheStatus::Bypass => "bypass",
            CacheStatus::Refresh => "refresh",
            CacheStatus::Disabled => "disabled",
        }
    }
}

/// The caching rules for one request: route defaults merged with the
/// client's headers.
pub struct CachePolicy {
    pub directive: CacheDirective,
    /// Lifetime of a stored response, in seconds.
    pub ttl_secs: u64,
    /// Client-supplied cache-key bumper (`X-Gateway-Cache-Scope`).
    pub cache_scope: Option<String>,
    /// `X-Gateway-Cache-Force`: cache even non-deterministic requests.
    pub allow_nondeterministic: bool,
}

/// The directive named by the header text, compared case-insensitively.
pub open spec fn directive_of(v: Option<Seq<char>>) -> CacheDirective {
    match v {
        Some(t) => {
            let l = ascii_lower(t);
            if l == "bypass"@ {
                CacheDirective::Bypass
            } else if l == "refresh"@ {
                CacheDirective::Refresh
            } else if l == "only"@ || l == "only-if-cached"@ {
                CacheDirective::OnlyIfCached
            } else {
                CacheDirective::Default
            }
        },
        None => CacheDirective::Default,
    }
}

/// The header's lifetime in seconds when it is a `u64`, else the default.
pub open spec fn ttl_of(v: Option<Seq<char>>, default_ttl_secs: u64) -> u64 {
    match v {
        Some(t) => match parsed_u64(t) {
            Some(n) => n,
            None => default_ttl_secs,
        },
        None => default_ttl_secs,
    }
}

/// The force header, trimmed and lowered, is `1`, `true` or `yes`.
pub open spec fn force_of(v: Option<Seq<char>>) -> bool {
    match v {
        Some(t) => {
            let l = ascii_lower(trimmed(t));
            l == "1"@ || l == "true"@ || l == "yes"@
        },
        None => false,
    }
}

pub open spec fn opt_text(o: Option<String>) -> Option<Seq<char>> {
    match o {
        Some(s) => Some(s@),
        None => None,
    }
}

fn directive_from(v: &Option<String>) -> (r: CacheDirective)
    ensures
        r == directive_of(opt_text(*v)),
{
    match v {
        Some(t) => {
            if lower_eq(t.as_str(), "bypass") {
                CacheDirective::Bypass
            } else if lower_eq(t.as_str(), "refresh") {
                CacheDirective::Refresh
            } else if lower_eq(t.as_str(), "only") || lower_eq(t.as_str(), "only-if-cached") {
                CacheDirective::OnlyIfCached
            } else {
                CacheDirective::Default
            }
        },
        None => CacheDirective::Default,
    }
}

fn force_from(v: &Option<String>) -> (r: bool)
    ensures
        r == force_of(opt_text(*v)),
{
    match v {
        Some(t) => {
            let x = trim(t.as_str());
            lower_eq(x.as_str(), "1") || lower_eq(x.as_str(), "true") || lower_eq(
                x.as_str(),
                "yes",
            )
        },
        None => false,
    }
}

impl CachePolicy {
    /// The policy for one request, or `None` when the route does not cache.
    pub fn from_headers(headers: &HeaderList, route_enabled: bool, default_ttl_secs: u64) -> (r:
        Option<CachePolicy>)
        ensures
            !route_enabled ==> r is None,
            route_enabled ==> (r matches Some(p) && p.directive == directive_of(
                header_text(headers.entries@, "x-gateway-cache"@),
            ) && p.ttl_secs == ttl_of(
                header_text(headers.entries@, "x-gateway-cache-ttl"@),
                default_ttl_secs,
            ) && opt_text(p.cache_scope) == header_text(
                headers.entries@,
                "x-gateway-cache-scope"@,
            ) && p.allow_nondeterministic == force_of(
                header_text(headers.entries@, "x-gateway-cache-force"@),
            )),
    {
        if !route_enabled {
            return None;
        }
        let d = headers.get_str("x-gateway-cache");
        let directive = directive_from(&d);
        let ttl_text = headers.get_str("x-gateway-cache-ttl");
        let ttl_secs = match &ttl_text {
            Some(t) => match parse_u64(t.as_str()) {
                Some(n) => n,
                None => default_ttl_secs,
            },
            None => default_ttl_secs,
        };
        let cache_scope = headers.get_str("x-gateway-cache-scope");
        let f = headers.get_str("x-gateway-cache-force");
        let allow_nondeterministic = force_from(&f);
        Some(CachePolicy { directive, ttl_secs, cache_scope, allow_nondeterministic })
    }
}

/// The policy for a request on a route: `from_headers` with the route's
/// switch and lifetime, and the route's `allow_nondeterministic` ORed with the
/// `X-Gateway-Cache-Force` header.
pub fn route_policy(headers: &HeaderList, route: &RouteCacheConfig) -> (r: Option<CachePolicy>)
    ensures
        !route.enabled ==> r is None,
        route.enabled ==> (r matches Some(p) && p.directive == directive_of(
            header_text(headers.entries@, "x-gateway-cache"@),
        ) && p.ttl_secs == ttl_of(header_text(headers.entries@, "x-gateway-cache-ttl"@), route.ttl)
            && opt_text(p.cache_scope) == header_text(headers.entries@, "x-gateway-cache-scope"@)
            && p.allow_nondeterministic == (route.allow_nondeterministic || force_of(
            header_text(headers.entries@, "x-gateway-cache-force"@),
        ))),
{
    match CachePolicy::from_headers(headers, route.enabled, route.ttl) {
        Some(mut p) => {
            p.allow_nondeterministic = p.allow_nondeterministic || route.allow_nondeterministic;
            Some(p)
        },
        None => None,
    }
}

/// The status reported without a cache read: `Disabled` without a policy,
/// `Bypass` or `Refresh` as the directive says, and `None` when the cache is
/// to be read.
pub open spec fn status_without_read(policy: Option<CachePolicy>) -> Option<CacheStatus> {
    match policy {
        None => Some(CacheStatus::Disabled),
        Some(p) => match p.directive {
            CacheDirective::Bypass => Some(CacheStatus::Bypass),
            CacheDirective::Refresh => Some(CacheStatus::Refresh),
            _ => None,
        },
    }
}

pub fn read_plan(policy: &Option<CachePolicy>) -> (r: Option<CacheStatus>)
    ensures
        r == status_without_read(*policy),
{
    match policy {
        None => Some(CacheStatus::Disabled),
        Some(p) => match p.directive {
            CacheDirective::Bypass => Some(CacheStatus::Bypass),
            CacheDirective::Refresh => Some(CacheStatus::Refresh),
            _ => None,
        },
    }
}

/// After a read that found nothing usable: `X-Gateway-Cache: only` answers
/// without contacting the upstream.
pub fn miss_is_final(policy: &Option<CachePolicy>) -> (r: bool)
    ensures
        r == (*policy matches Some(p) && p.directive == CacheDirective::OnlyIfCached),
{
    match policy {
        Some(p) => p.directive == CacheDirective::OnlyIfCached,
        None => false,
    }
}

/// A forwarded response is stored when the cache missed or was refreshed,
/// the upstream answered 2xx, the request is deterministic enough, and the
/// route caches.
pub open spec fn write_wanted(status: CacheStatus, upstream_status: u16, cacheable: bool, has_policy: bool) -> bool {
    (status == CacheStatus::Miss || status == CacheStatus::Refresh) && 200 <= upstream_status
        <= 299 && cacheable && has_policy
}

pub fn should_write(status: CacheStatus, upstream_status: u16, cacheable: bool, has_policy: bool) -> (r:
    bool)
    ensures
        r == write_wanted(status, upstream_status, cacheable, has_policy),
{
    (status == CacheStatus::Miss || status == CacheStatus::Refresh) && 200 <= upstream_status
        && upstream_status <= 299 && cacheable && has_policy
}

/// `resp:{provider}:{fingerprint}`.
pub open spec fn key_text(provider: Seq<char>, fp: Seq<char>) -> Seq<char> {
    "resp:"@ + provider + ":"@ + fp
}

pub fn cache_key(provider: &str, fp: &str) -> (r: String)
    ensures
        r@ == key_text(provider@, fp@),
{
    let mut s = String::new();
    push_str(&mut s, "resp:");
    push_str(&mut s, provider);
    push_str(&mut s, ":");
    push_str(&mut s, fp);
    s
}

/// The length in bytes of the key shown in `x-gateway-cache-key`.
pub open spec fn shown_key_len(key: Seq<char>) -> int {
    let n = encode_utf8(key).len() as int;
    if n < 48 {
        n
    } else {
        48
    }
}

/// The first 48 bytes of the key, as shown in `x-gateway-cache-key`. The cut
/// must fall between characters.
pub fn shown_key(key: &str) -> (r: String)
    requires
        encode_utf8(key@).len() <= usize::MAX,
        is_char_boundary(encode_utf8(key@), shown_key_len(key@)),
    ensures
        encode_utf8(r@) == encode_utf8(key@).take(shown_key_len(key@)),
{
    let n = key.len();
    let cut: usize = if n < 48 {
        n
    } else {
        48
    };
    assert(key.spec_bytes() == encode_utf8(key@));
    let (head, _tail) = key.split_at(cut);
    assert(head.spec_bytes() == encode_utf8(head@));
    let r = String::from_str(head);
    assert(encode_utf8(key@).take(cut as int) =~= encode_utf8(key@).subrange(0, cut as int));
    r
}

/// Age of a stored response in whole seconds, never negative.
pub open spec fn age_secs(now_ms: i64, finished_at_ms: i64) -> u64 {
    let d = now_ms - finished_at_ms;
    if d < 0 {
        0
    } else {
        (d / 1000) as u64
    }
}

pub fn cache_age_secs(now_ms: i64, finished_at_ms: i64) -> (r: u64)
    requires
        i64::MIN <= now_ms - finished_at_ms <= i64::MAX,
    ensures
        r == age_secs(now_ms, finished_at_ms),
{
    let d = now_ms - finished_at_ms;
    if d < 0 {
        0
    } else {
        (d as u64) / 1000
    }
}

/// The status a stored response is replayed with: `StatusCode::from_u16`
/// accepts 100 to 999, anything else replays as 200.
pub open spec fn replay_status_of(s: u16) -> u16 {
    if 100 <= s <= 999 {
        s
    } else {
        200
    }
}

pub fn replay_status(s: u16) -> (r: u16)
    ensures
        r == replay_status_of(s),
{
    if 100 <= s && s <= 999 {
        s
    } else {
        200
    }
}

/// A stored header that is replayed: anything but `content-length` and
/// `transfer-encoding`, in any case.
pub open spec fn replayed(name: Seq<char>) -> bool {
    ascii_lower(name) != "content-length"@ && ascii_lower(name) != "transfer-encoding"@
}

pub open spec fn replayed_headers(hs: Seq<(Seq<char>, Seq<char>)>) -> Seq<(Seq<char>, Seq<char>)>
    decreases hs.len(),
{
    if hs.len() == 0 {
        hs
    } else if replayed(hs.last().0) {
        replayed_headers(hs.drop_last()).push(hs.last())
    } else {
        replayed_headers(hs.drop_last())
    }
}

pub open spec fn pairs_view(hs: Seq<(String, String)>) -> Seq<(Seq<char>, Seq<char>)> {
    hs.map_values(|h: (String, String)| (h.0@, h.1@))
}

pub fn replay_headers(hs: &Vec<(String, String)>) -> (r: Vec<(String, String)>)
    ensures
        pairs_view(r@) == replayed_headers(pairs_view(hs@)),
{
    let mut out: Vec<(String, String)> = Vec::new();
    let n = hs.len();
    for i in 0..n
        invariant
            n == hs@.len(),
            pairs_view(out@) == replayed_headers(pairs_view(hs@.take(i as int))),
    {
        let (k, v) = &hs[i];
        let ghost before = pairs_view(hs@.take(i as int));
        assert(pairs_view(hs@.take(i + 1)) =~= before.push((k@, v@)));
        assert(before.push((k@, v@)).drop_last() =~= before);
        if !lower_eq(k.as_str(), "content-length") && !lower_eq(k.as_str(), "transfer-encoding") {
            let ghost old_out = out@;
            out.push((String::from_str(k.as_str()), String::from_str(v.as_str())));
            assert(pairs_view(out@) =~= pairs_view(old_out).push((k@, v@)));
        }
    }
    assert(hs@.take(n as int) =~= hs@);
    out
}

/// The upstream headers that can be stored: those whose value is text
/// (`HeaderValue::to_str` succeeds), as (name, value) pairs, in order.
pub open spec fn storable_headers(hs: Seq<crate::headers::Header>) -> Seq<(Seq<char>, Seq<char>)>
    decreases hs.len(),
{
    if hs.len() == 0 {
        Seq::empty()
    } else {
        let rest = storable_headers(hs.drop_last());
        match value_text(hs.last().value@) {
            Some(t) => rest.push((hs.last().name@, t)),
            None => rest,
        }
    }
}

pub fn headers_to_store(hs: &HeaderList) -> (r: Vec<(String, String)>)
    ensures
        pairs_view(r@) == storable_headers(hs.entries@),
{
    let mut out: Vec<(String, String)> = Vec::new();
    let n = hs.entries.len();
    for i in 0..n
        invariant
            n == hs.entries@.len(),
            pairs_view(out@) == storable_headers(hs.entries@.take(i as int)),
    {
        assert(hs.entries@.take(i + 1).drop_last() =~= hs.entries@.take(i as int));
        let h = &hs.entries[i];
        match crate::headers::ascii_value_text(h.value.as_slice()) {
            Some(t) => {
                let ghost old_out = out@;
                out.push((String::from_str(h.name.as_str()), t));
                assert(pairs_view(out@) =~= pairs_view(old_out).push((h.name@, out@.last().1@)));
            },
            None => {},
        }
    }
    assert(hs.entries@.take(n as int) =~= hs.entries@);
    out
}

/// One stored body chunk.
pub struct CachedChunk {
    pub data: Vec<u8>,
}

/// A stored upstream response: status, headers and body chunks, replayed
/// uniformly whether the upstream streamed or not.
pub struct CachedResponse {
    pub status: u16,
    pub headers: Vec<(String, String)>,
    pub chunks: Vec<CachedChunk>,
    pub finished_at_ms: i64,
}

pub open spec fn chunks_view(cs: Seq<CachedChunk>) -> Seq<Seq<u8>> {
    cs.map_values(|c: CachedChunk| c.data@)
}

pub open spec fn byte_seqs(vs: Seq<Vec<u8>>) -> Seq<Seq<u8>> {
    vs.map_values(|v: Vec<u8>| v@)
}

impl CachedResponse {
    pub open spec fn fields(self) -> (u16, Seq<(Seq<char>, Seq<char>)>, Seq<Seq<u8>>, i64) {
        (self.status, pairs_view(self.headers@), chunks_view(self.chunks@), self.finished_at_ms)
    }
}

/// What `bincode::serde::decode_from_slice` (standard configuration) reads
/// from bytes as the tuple (status, headers, chunks, finished_at_ms): `None`
/// when it fails.
pub uninterp spec fn bincode_fields(bytes: Seq<u8>) -> Option<
    (u16, Seq<(Seq<char>, Seq<char>)>, Seq<Seq<u8>>, i64),
>;

/// What `zstd::decode_all` gives back for a frame: `None` when it fails.
pub uninterp spec fn zstd_decoded(frame: Seq<u8>) -> Option<Seq<u8>>;

/// Calls `bincode::serde::encode_to_vec` with the standard configuration on
/// the tuple of the four fields (bincode encodes a struct as the tuple of its
/// fields). Trusted: it succeeds (every sequence here has a length, the
/// standard configuration sets no size limit, and writing into a `Vec` does
/// not fail), and what it writes `decode_from_slice` reads back as the same
/// values.
#[verifier::external_body]
fn bincode_encode(status: u16, headers: &Vec<(String, String)>, chunks: &Vec<Vec<u8>>, finished_at_ms: i64) -> (r:
    Result<Vec<u8>, String>)
    ensures
        r is Ok,
        r matches Ok(b) ==> bincode_fields(b@) == Some(
            (status, pairs_view(headers@), byte_seqs(chunks@), finished_at_ms),
        ),
{
    bincode::serde::encode_to_vec(
        (status, headers, chunks, finished_at_ms),
        bincode::config::standard(),
    ).map_err(|e| e.to_string())
}

/// Calls `bincode::serde::decode_from_slice` with the standard configuration
/// for the tuple of the four fields. Trusted: the result is a function of the
/// bytes alone.
#[verifier::external_body]
fn bincode_decode(bytes: &[u8]) -> (r: Result<(u16, Vec<(String, String)>, Vec<Vec<u8>>, i64), String>)
    ensures
        match r {
            Ok(f) => bincode_fields(bytes@) == Some((f.0, pairs_view(f.1@), byte_seqs(f.2@), f.3)),
            Err(_) => bincode_fields(bytes@) is None,
        },
{
    bincode::serde::decode_from_slice::<(u16, Vec<(String, String)>, Vec<Vec<u8>>, i64), _>(
        bytes,
        bincode::config::standard(),
    ).map(|(v, _)| v).map_err(|e| e.to_string())
}

/// Calls `zstd::encode_all` at the given level. Trusted: reading from a slice
/// and writing into a `Vec` do not fail, so at a level from 1 to 22 it
/// succeeds; zstd is lossless, so decoding the frame gives back the input.
#[verifier::external_body]
fn zstd_compress(raw: &[u8], level: i32) -> (r: Result<Vec<u8>, String>)
    ensures
        1 <= level <= 22 ==> r is Ok,
        r matches Ok(c) ==> zstd_decoded(c@) == Some(raw@),
{
    zstd::encode_all(raw, level).map_err(|e| e.to_string())
}

/// Calls `zstd::decode_all`. Trusted: the result is a function of the frame
/// alone.
#[verifier::external_body]
fn zstd_decompress(frame: &[u8]) -> (r: Result<Vec<u8>, String>)
    ensures
        match r {
            Ok(v) => zstd_decoded(frame@) == Some(v@),
            Err(_) => zstd_decoded(frame@) is None,
        },
{
    zstd::decode_all(frame).map_err(|e| e.to_string())
}

/// The fields stored in a blob: zstd, then bincode.
pub open spec fn blob_fields(blob: Seq<u8>) -> Option<(u16, Seq<(Seq<char>, Seq<char>)>, Seq<Seq<u8>>, i64)> {
    match zstd_decoded(blob) {
        Some(raw) => bincode_fields(raw),
        None => None,
    }
}

/// The compression level of stored responses.
pub const ZSTD_LEVEL: i32 = 3;

fn copy_bytes(b: &[u8]) -> (r: Vec<u8>)
    ensures
        r@ == b@,
{
    let mut out: Vec<u8> = Vec::new();
    let n = b.len();
    for i in 0..n
        invariant
            n == b@.len(),
            out@ == b@.take(i as int),
    {
        out.push(b[i]);
        assert(out@ =~= b@.take(i + 1));
    }
    assert(out@ =~= b@);
    out
}

impl CachedResponse {
    /// The stored form: bincode, then zstd. It succeeds, and decoding what it
    /// gives back yields the same fields.
    pub fn encode(&self) -> (r: Result<Vec<u8>, String>)
        ensures
            r matches Ok(b) && blob_fields(b@) == Some(self.fields()),
    {
        let mut chunks: Vec<Vec<u8>> = Vec::new();
        let n = self.chunks.len();
        for i in 0..n
            invariant
                n == self.chunks@.len(),
                byte_seqs(chunks@) == chunks_view(self.chunks@).take(i as int),
        {
            let ghost old_chunks = chunks@;
            chunks.push(copy_bytes(self.chunks[i].data.as_slice()));
            assert(byte_seqs(chunks@) =~= byte_seqs(old_chunks).push(self.chunks@[i as int].data@));
            assert(chunks_view(self.chunks@).take(i + 1) =~= chunks_view(self.chunks@).take(
                i as int,
            ).push(self.chunks@[i as int].data@));
        }
        assert(chunks_view(self.chunks@).take(n as int) =~= chunks_view(self.chunks@));
        let raw = bincode_encode(self.status, &self.headers, &chunks, self.finished_at_ms)?;
        zstd_compress(raw.as_slice(), ZSTD_LEVEL)
    }

    /// Reads a stored blob back; an error when it is not zstd or not the
    /// bincode form of a stored response.
    pub fn decode(blob: &[u8]) -> (r: Result<CachedResponse, String>)
        ensures
            r is Ok <==> blob_fields(blob@) is Some,
            r matches Ok(c) ==> blob_fields(blob@) == Some(c.fields()),
    {
        let raw = zstd_decompress(blob)?;
        let (status, headers, raw_chunks, finished_at_ms) = bincode_decode(raw.as_slice())?;
        let mut chunks: Vec<CachedChunk> = Vec::new();
        let n = raw_chunks.len();
        for i in 0..n
            invariant
                n == raw_chunks@.len(),
                chunks_view(chunks@) == byte_seqs(raw_chunks@).take(i as int),
        {
            let ghost old_chunks = chunks@;
            chunks.push(CachedChunk { data: copy_bytes(raw_chunks[i].as_slice()) });
            assert(chunks_view(chunks@) =~= chunks_view(old_chunks).push(raw_chunks@[i as int]@));
            assert(byte_seqs(raw_chunks@).take(i + 1) =~= byte_seqs(raw_chunks@).take(
                i as int,
            ).push(raw_chunks@[i as int]@));
        }
        assert(byte_seqs(raw_chunks@).take(n as int) =~= byte_seqs(raw_chunks@));
        Ok(CachedResponse { status, headers, chunks, finished_at_ms })
    }
}

/// The `X-Gateway-Cache` directive, read without regard to ASCII case:
/// `bypass` skips the cache, `refresh` skips the read but stores, `only` and
/// `only-if-cached` read without forwarding, and any other value or no
/// header is the default. Neither skipping directive reads the cache.
pub proof fn lemma_directive_words(t: Seq<char>)
    ensures
        ascii_lower(t) == "bypass"@ ==> directive_of(Some(t)) == CacheDirective::Bypass,
        ascii_lower(t) == "refresh"@ ==> directive_of(Some(t)) == CacheDirective::Refresh,
        ascii_lower(t) == "only"@ || ascii_lower(t) == "only-if-cached"@ ==> directive_of(Some(t))
            == CacheDirective::OnlyIfCached,
        ascii_lower(t) != "bypass"@ && ascii_lower(t) != "refresh"@ && ascii_lower(t) != "only"@
            && ascii_lower(t) != "only-if-cached"@ ==> directive_of(Some(t)) == CacheDirective::Default,
        directive_of(None) == CacheDirective::Default,
        directive_of(Some(t)) == directive_of(Some(ascii_lower(t))),
{
    reveal_strlit("bypass");
    reveal_strlit("refresh");
    reveal_strlit("only");
    reveal_strlit("only-if-cached");
    assert(ascii_lower(ascii_lower(t)) =~= ascii_lower(t));
    assert("bypass"@[0] != "refresh"@[0]);
    assert("bypass"@.len() != "only"@.len());
    assert("refresh"@.len() != "only"@.len());
    assert("bypass"@.len() != "only-if-cached"@.len());
    assert("refresh"@.len() != "only-if-cached"@.len());
}

/// A policy's directive decides whether the cache is read: `bypass` and
/// `refresh` skip the read (reported as such), the others read it.
pub proof fn lemma_directive_read_plan(p: CachePolicy)
    ensures
        p.directive == CacheDirective::Bypass ==> status_without_read(Some(p)) == Some(CacheStatus::Bypass),
        p.directive == CacheDirective::Refresh ==> status_without_read(Some(p)) == Some(CacheStatus::Refresh),
        p.directive == CacheDirective::Default || p.directive == CacheDirective::OnlyIfCached
            ==> status_without_read(Some(p)) is None,
        status_without_read(None) == Some(CacheStatus::Disabled),
{
}

} // verus!
