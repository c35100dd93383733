//! The decisions of one proxied request, in order: budget, rate limits,
//! cache read, forwarding, relaying. The caller does each step's work (store
//! lookups, the upstream call) and reports what came of it; each report
//! yields the next action.
use vstd::prelude::*;
use vstd::string::*;
use vstd::utf8::*;
use vstd::slice::slice_to_vec;
use crate::cache::{
    CacheDirective, CachePolicy, CacheStatus, CachedResponse, age_secs, cache_age_secs, chunks_view,
    pairs_view, read_plan, replay_headers, replay_status, replay_status_of, replayed_headers,
    shown_key, shown_key_len, should_write, status_text, status_without_read, write_wanted,
};
use crate::error::{ApiError, GatewayError, error_class, error_message, error_status};
use crate::headers::{HeaderList, inserted, is_lower, lemma_lower_idempotent, lemma_plain_name_lower};
use crate::proxy::{header_name, http_header_name};
use crate::text::{decimal, u64_to_decimal};

verus! {

/// A byte that `HeaderValue` accepts in a value: tab, or anything from space
/// up but DEL.
pub open spec fn value_byte_ok(b: u8) -> bool {
    (b >= 32 && b != 127) || b == 9
}

pub open spec fn value_ok(v: Seq<u8>) -> bool {
    forall|i: int| 0 <= i < v.len() ==> value_byte_ok(#[trigger] v[i])
}

fn value_bytes_ok(v: &[u8]) -> (r: bool)
    ensures
        r == value_ok(v@),
{
    let n = v.len();
    for i in 0..n
        invariant
            n == v@.len(),
            forall|j: int| 0 <= j < i ==> value_byte_ok(#[trigger] v@[j]),
    {
        let b = v[i];
        if !((b >= 32 && b != 127) || b == 9) {
            return false;
        }
    }
    true
}

/// The header set to the value when the value is valid, else the headers as
/// they were.
pub open spec fn set_if_valid(hv: Seq<(Seq<char>, Seq<u8>)>, name: Seq<char>, value: Seq<u8>) -> Seq<
    (Seq<char>, Seq<u8>),
> {
    if value_ok(value) {
        inserted(hv, name, value)
    } else {
        hv
    }
}

fn set_if_valid_exec(h: &mut HeaderList, name: &str, value: Vec<u8>)
    ensures
        final(h).pairs() == set_if_valid(old(h).pairs(), name@, value@),
        old(h).wf() && is_lower(name@) ==> final(h).wf(),
{
    if value_bytes_ok(value.as_slice()) {
        h.insert(name, value);
    }
}

/// The cache headers set on an answer: the cache status, the first 48 bytes
/// of the cache key, and the age in seconds when there is one.
pub open spec fn with_cache_headers(
    hv: Seq<(Seq<char>, Seq<u8>)>,
    status: CacheStatus,
    key: Seq<char>,
    age: Option<u64>,
) -> Seq<(Seq<char>, Seq<u8>)> {
    let a = set_if_valid(hv, "x-gateway-cache-status"@, encode_utf8(status_text(status)));
    let b = set_if_valid(a, "x-gateway-cache-key"@, encode_utf8(key).take(shown_key_len(key)));
    match age {
        Some(n) => set_if_valid(b, "x-gateway-cache-age"@, encode_utf8(decimal(n as nat))),
        None => b,
    }
}

/// A key whose first 48 bytes end between characters.
pub open spec fn key_shown_ok(key: Seq<char>) -> bool {
    encode_utf8(key).len() <= usize::MAX && is_char_boundary(encode_utf8(key), shown_key_len(key))
}

/// Sets the cache headers on an answer.
pub fn insert_cache_headers(h: &mut HeaderList, status: CacheStatus, key: &str, age: Option<u64>)
    requires
        key_shown_ok(key@),
    ensures
        final(h).pairs() == with_cache_headers(old(h).pairs(), status, key@, age),
        old(h).wf() ==> final(h).wf(),
{
    proof {
        reveal_strlit("x-gateway-cache-status");
        reveal_strlit("x-gateway-cache-key");
        reveal_strlit("x-gateway-cache-age");
        lemma_plain_name_lower("x-gateway-cache-status"@);
        lemma_plain_name_lower("x-gateway-cache-key"@);
        lemma_plain_name_lower("x-gateway-cache-age"@);
    }
    set_if_valid_exec(h, "x-gateway-cache-status", slice_to_vec(status.as_header().as_bytes()));
    let shown = shown_key(key);
    set_if_valid_exec(h, "x-gateway-cache-key", slice_to_vec(shown.as_str().as_bytes()));
    match age {
        Some(n) => {
            let t = u64_to_decimal(n);
            set_if_valid_exec(h, "x-gateway-cache-age", slice_to_vec(t.as_str().as_bytes()));
        },
        None => {},
    }
}

/// The headers of a relayed answer: the upstream's, then the cache headers
/// (no age), then the request id.
pub open spec fn relayed_headers_of(
    upstream: Seq<(Seq<char>, Seq<u8>)>,
    status: CacheStatus,
    key: Seq<char>,
    request_id: Seq<char>,
) -> Seq<(Seq<char>, Seq<u8>)> {
    set_if_valid(with_cache_headers(upstream, status, key, None), "x-gateway-request-id"@, encode_utf8(request_id))
}

/// The stored headers as the response builder takes them: each name
/// normalised and each value checked; `None` when one is refused.
pub open spec fn replay_entries(hs: Seq<(Seq<char>, Seq<char>)>) -> Option<Seq<(Seq<char>, Seq<u8>)>>
    decreases hs.len(),
{
    if hs.len() == 0 {
        Some(Seq::empty())
    } else {
        match (replay_entries(hs.drop_last()), http_header_name(hs.last().0)) {
            (Some(r), Some(n)) => if value_ok(encode_utf8(hs.last().1)) {
                Some(r.push((n, encode_utf8(hs.last().1))))
            } else {
                None
            },
            _ => None,
        }
    }
}

/// The body chunks, end to end.
pub open spec fn joined(cs: Seq<Seq<u8>>) -> Seq<u8>
    decreases cs.len(),
{
    if cs.len() == 0 {
        Seq::empty()
    } else {
        joined(cs.drop_last()) + cs.last()
    }
}

/// The answer served from a stored response: its status (200 when invalid),
/// its headers but `content-length` and `transfer-encoding`, and its body;
/// when a stored header is refused, an empty 200 answer. The cache headers,
/// with the age, are set on either.
pub open spec fn served_answer(c: CachedResponse, status: CacheStatus, key: Seq<char>, now_ms: i64) -> (u16, Seq<
    (Seq<char>, Seq<u8>),
>, Seq<u8>) {
    let age = Some(age_secs(now_ms, c.finished_at_ms));
    match replay_entries(replayed_headers(pairs_view(c.headers@))) {
        Some(hv) => (replay_status_of(c.status), with_cache_headers(hv, status, key, age), joined(chunks_view(c.chunks@))),
        None => (200, with_cache_headers(Seq::empty(), status, key, age), Seq::empty()),
    }
}

fn replay_header_list(hs: &Vec<(String, String)>) -> (r: Option<HeaderList>)
    ensures
        match replay_entries(pairs_view(hs@)) {
            Some(hv) => r matches Some(l) && l.pairs() == hv,
            None => r is None,
        },
        r matches Some(l) ==> l.wf(),
{
    let mut out = HeaderList::new();
    let n = hs.len();
    for i in 0..n
        invariant
            n == hs@.len(),
            replay_entries(pairs_view(hs@.take(i as int))) == Some(out.pairs()),
            out.wf(),
    {
        let ghost pre = pairs_view(hs@.take(i as int));
        assert(pairs_view(hs@.take(i + 1)) =~= pre.push((hs@[i as int].0@, hs@[i as int].1@)));
        assert(pre.push((hs@[i as int].0@, hs@[i as int].1@)).drop_last() =~= pre);
        let (k, v) = &hs[i];
        match header_name(k.as_str()) {
            None => {
                proof {
                    lemma_replay_entries_stuck(pairs_view(hs@), i as int);
                }
                return None;
            },
            Some(name) => {
                let bytes = slice_to_vec(v.as_str().as_bytes());
                if !value_bytes_ok(bytes.as_slice()) {
                    proof {
                        lemma_replay_entries_stuck(pairs_view(hs@), i as int);
                    }
                    return None;
                }
                proof {
                    lemma_lower_idempotent(k@);
                }
                out.append(name, bytes);
            },
        }
    }
    assert(hs@.take(n as int) =~= hs@);
    Some(out)
}

/// Once a prefix is refused, so is the whole.
proof fn lemma_replay_entries_stuck(hs: Seq<(Seq<char>, Seq<char>)>, k: int)
    requires
        0 <= k < hs.len(),
        replay_entries(hs.take(k + 1)) is None,
    ensures
        replay_entries(hs) is None,
    decreases hs.len() - k,
{
    if k + 1 < hs.len() {
        assert(hs.drop_last().take(k + 1) =~= hs.take(k + 1));
        lemma_replay_entries_stuck(hs.drop_last(), k);
    } else {
        assert(hs.take(k + 1) =~= hs);
    }
}

fn join_chunks(c: &CachedResponse) -> (r: Vec<u8>)
    ensures
        r@ == joined(chunks_view(c.chunks@)),
{
    let mut out: Vec<u8> = Vec::new();
    let n = c.chunks.len();
    for i in 0..n
        invariant
            n == c.chunks@.len(),
            out@ == joined(chunks_view(c.chunks@).take(i as int)),
    {
        let ghost pre = chunks_view(c.chunks@).take(i as int);
        assert(chunks_view(c.chunks@).take(i + 1) =~= pre.push(c.chunks@[i as int].data@));
        assert(pre.push(c.chunks@[i as int].data@).drop_last() =~= pre);
        crate::fingerprint::push_bytes(&mut out, c.chunks[i].data.as_slice());
    }
    assert(chunks_view(c.chunks@).take(n as int) =~= chunks_view(c.chunks@));
    out
}

/// Builds the answer served from a stored response.
pub fn serve_cached(c: &CachedResponse, status: CacheStatus, key: &str, now_ms: i64) -> (r: (u16, HeaderList, Vec<u8>))
    requires
        key_shown_ok(key@),
        i64::MIN <= now_ms - c.finished_at_ms <= i64::MAX,
    ensures
        (r.0, r.1.pairs(), r.2@) == served_answer(*c, status, key@, now_ms),
        r.1.wf(),
{
    let age = cache_age_secs(now_ms, c.finished_at_ms);
    let kept = replay_headers(&c.headers);
    match replay_header_list(&kept) {
        Some(mut h) => {
            insert_cache_headers(&mut h, status, key, Some(age));
            (replay_status(c.status), h, join_chunks(c))
        },
        None => {
            let mut h = HeaderList::new();
            insert_cache_headers(&mut h, status, key, Some(age));
            (200, h, Vec::new())
        },
    }
}

/// Builds the headers of a relayed answer.
pub fn relay_headers(upstream: &HeaderList, status: CacheStatus, key: &str, request_id: &str) -> (r: HeaderList)
    requires
        key_shown_ok(key@),
    ensures
        r.pairs() == relayed_headers_of(upstream.pairs(), status, key@, request_id@),
        upstream.wf() ==> r.wf(),
{
    let mut h = HeaderList::new();
    let n = upstream.entries.len();
    for i in 0..n
        invariant
            n == upstream.entries@.len(),
            h.pairs() == upstream.pairs().take(i as int),
            upstream.wf() ==> h.wf(),
    {
        let e = upstream.entries[i].copy();
        h.append(e.name, e.value);
        assert(h.pairs() =~= upstream.pairs().take(i + 1));
    }
    assert(upstream.pairs().take(n as int) =~= upstream.pairs());
    insert_cache_headers(&mut h, status, key, None);
    proof {
        reveal_strlit("x-gateway-request-id");
        lemma_plain_name_lower("x-gateway-request-id"@);
    }
    set_if_valid_exec(&mut h, "x-gateway-request-id", slice_to_vec(request_id.as_bytes()));
    h
}

/// A request id as `Uuid::to_string` renders it: 36 characters, lower-case
/// hex digits with hyphens at 8, 13, 18 and 23.
pub open spec fn request_id_shape(id: Seq<char>) -> bool {
    &&& id.len() == 36
    &&& forall|i: int|
        0 <= i < 36 ==> if i == 8 || i == 13 || i == 18 || i == 23 {
            #[trigger] id[i] == '-'
        } else {
            ('0' <= id[i] <= '9') || ('a' <= id[i] <= 'f')
        }
}

/// Calls `uuid::Uuid::now_v7()` and renders it with `to_string`. Trusted: the
/// text is the hyphenated lower-case form. Which id comes back depends on the
/// time and on chance.
#[verifier::external_body]
fn new_request_id() -> (r: String)
    ensures
        request_id_shape(r@),
{
    uuid::Uuid::now_v7().to_string()
}

/// Where a request stands.
#[derive(Debug, Clone, Copy, PartialEq, Eq, Structural)]
pub enum FlowStage {
    Budget,
    Limits,
    CacheRead,
    Forwarding,
    Relaying,
    Done,
}

/// What the request log records when the request ends.
pub struct LogEntry {
    /// `success`, `rate_limited`, `gateway_error`, `upstream_error`, or an
    /// error class.
    pub status: String,
    pub http_status: Option<i32>,
    pub error: Option<String>,
    /// Served from the cache (at no cost).
    pub cached: bool,
    /// Attempts made beyond the first.
    pub retry_count: i32,
    /// The fallback provider the chain moved to, if any.
    pub fallback_used: Option<String>,
}

/// The next step of a request.
pub enum FlowAction {
    /// Check the budgets that apply to the caller.
    CheckBudget,
    /// Apply the rate limits.
    CheckLimits,
    /// Look the request up in the response cache.
    ReadCache,
    /// Send the request along the provider chain.
    Forward,
    /// Relay the upstream response with this status and these headers, its
    /// body unchanged; collect it for the cache when `write_cache` (and it
    /// fits).
    Relay { write_cache: bool, status: u16, headers: HeaderList, request_id: String },
    /// Answer with the stored response: this status, headers and body.
    ServeCached { log: LogEntry, status: u16, headers: HeaderList, body: Vec<u8> },
    /// Refuse the request.
    Refuse { error: ApiError, log: LogEntry },
    /// The relayed response ended. `store_cache`: store what was collected;
    /// `account`: reconcile token counts and record the cost.
    Complete { log: LogEntry, store_cache: bool, account: bool },
}

/// The state of one request.
pub struct ProxyFlow {
    pub stage: FlowStage,
    /// The cache status reported to the client.
    pub cache_status: CacheStatus,
    /// The route caches (a policy exists).
    pub has_policy: bool,
    /// `X-Gateway-Cache: only`.
    pub only_if_cached: bool,
    /// The request is deterministic enough to cache.
    pub cacheable: bool,
    /// The relayed response is to be stored.
    pub write_cache: bool,
    /// The cache is to be read.
    pub reads_cache: bool,
    /// Attempts the provider chain made beyond the first.
    pub retry_count: i32,
    /// The fallback provider the chain moved to, if any.
    pub fallback_used: Option<String>,
}

pub open spec fn opt_view(o: Option<String>) -> Option<Seq<char>> {
    match o {
        Some(s) => Some(s@),
        None => None,
    }
}

pub open spec fn log_is(l: LogEntry, status: Seq<char>, http_status: Option<i32>, error: Option<Seq<char>>, cached: bool) -> bool {
    &&& l.status@ == status
    &&& l.http_status == http_status
    &&& opt_view(l.error) == error
    &&& l.cached == cached
}

/// The chain's part of a log entry.
pub open spec fn log_chain(l: LogEntry, retry_count: i32, fallback_used: Option<Seq<char>>) -> bool {
    l.retry_count == retry_count && opt_view(l.fallback_used) == fallback_used
}

/// Retries recorded for a chain that made `attempts` attempts:
/// `attempts.saturating_sub(1) as i32`.
pub open spec fn retry_count_of(attempts: usize) -> i32 {
    if attempts == 0 {
        0
    } else {
        (attempts - 1) as i32
    }
}

fn retries(attempts: usize) -> (r: i32)
    ensures
        r == retry_count_of(attempts),
{
    if attempts == 0 {
        0
    } else {
        (attempts - 1) as i32
    }
}

fn copy_opt(o: &Option<String>) -> (r: Option<String>)
    ensures
        opt_view(r) == opt_view(*o),
{
    match o {
        Some(s) => Some(String::from_str(s.as_str())),
        None => None,
    }
}

fn log_entry(status: &str, http_status: Option<i32>, error: Option<String>, cached: bool) -> (r: LogEntry)
    ensures
        r.status@ == status@,
        r.http_status == http_status,
        r.error == error,
        r.cached == cached,
        log_chain(r, 0, None),
{
    LogEntry { status: String::from_str(status), http_status, error, cached, retry_count: 0, fallback_used: None }
}

/// The flow's fields that no step but the named ones changes.
pub open spec fn same_setup(a: ProxyFlow, b: ProxyFlow) -> bool {
    &&& a.cache_status == b.cache_status
    &&& a.reads_cache == b.reads_cache
    &&& a.only_if_cached == b.only_if_cached
    &&& a.has_policy == b.has_policy
    &&& a.cacheable == b.cacheable
}

impl ProxyFlow {
    /// Starts a request under its cache policy (`None` when the route does
    /// not cache); `cacheable` says whether the request body may be cached.
    pub fn begin(policy: &Option<CachePolicy>, cacheable: bool) -> (r: (ProxyFlow, FlowAction))
        ensures
            r.0.stage == FlowStage::Budget,
            r.1 is CheckBudget,
            r.0.has_policy == policy is Some,
            r.0.only_if_cached == (*policy matches Some(p) && p.directive == CacheDirective::OnlyIfCached),
            r.0.cacheable == cacheable,
            r.0.reads_cache == status_without_read(*policy) is None,
            status_without_read(*policy) matches Some(s) ==> r.0.cache_status == s,
            !r.0.write_cache,
            r.0.retry_count == 0,
            r.0.fallback_used is None,
    {
        let plan = read_plan(policy);
        let only = match policy {
            Some(p) => p.directive == CacheDirective::OnlyIfCached,
            None => false,
        };
        let flow = ProxyFlow {
            stage: FlowStage::Budget,
            cache_status: match plan {
                Some(s) => s,
                None => CacheStatus::Miss,
            },
            has_policy: policy.is_some(),
            only_if_cached: only,
            cacheable,
            write_cache: false,
            reads_cache: plan.is_none(),
            retry_count: 0,
            fallback_used: None,
        };
        (flow, FlowAction::CheckBudget)
    }

    /// A budget that blocks refuses the request (429) before any other work.
    pub fn on_budget(&mut self, blocked: bool) -> (r: FlowAction)
        requires
            old(self).stage == FlowStage::Budget,
        ensures
            blocked ==> final(self).stage == FlowStage::Done && (r matches FlowAction::Refuse { error, log }
                && error == ApiError::Gateway(GatewayError::RateLimited) && log_is(
                log,
                "gateway_error"@,
                Some(429i32),
                Some("budget_exceeded"@),
                false,
            ) && log_chain(log, 0, None)),
            !blocked ==> final(self).stage == FlowStage::Limits && r is CheckLimits,
            same_setup(*final(self), *old(self)),
    {
        if blocked {
            self.stage = FlowStage::Done;
            FlowAction::Refuse {
                error: ApiError::Gateway(GatewayError::RateLimited),
                log: log_entry("gateway_error", Some(429), Some(String::from_str("budget_exceeded")), false),
            }
        } else {
            self.stage = FlowStage::Limits;
            FlowAction::CheckLimits
        }
    }

    /// A refused limit ends the request with its error (logged as rate
    /// limited, 429); otherwise the cache is read, or the request forwarded
    /// when the cache is not read.
    pub fn on_limits(&mut self, verdict: Result<(), ApiError>) -> (r: FlowAction)
        requires
            old(self).stage == FlowStage::Limits,
        ensures
            verdict matches Err(e) ==> final(self).stage == FlowStage::Done && (r matches FlowAction::Refuse {
                error,
                log,
            } && error == e && log_is(log, "rate_limited"@, Some(429i32), None, false) && log_chain(log, 0, None)),
            verdict is Ok && old(self).reads_cache ==> final(self).stage == FlowStage::CacheRead
                && r is ReadCache,
            verdict is Ok && !old(self).reads_cache ==> final(self).stage == FlowStage::Forwarding
                && r is Forward,
            same_setup(*final(self), *old(self)),
    {
        match verdict {
            Err(e) => {
                self.stage = FlowStage::Done;
                FlowAction::Refuse { error: e, log: log_entry("rate_limited", Some(429), None, false) }
            },
            Ok(()) => {
                if self.reads_cache {
                    self.stage = FlowStage::CacheRead;
                    FlowAction::ReadCache
                } else {
                    self.stage = FlowStage::Forwarding;
                    FlowAction::Forward
                }
            },
        }
    }

    /// The cache read: a stored response is served (with the cache headers
    /// and its age, `now_ms` being the time in milliseconds); a miss under
    /// `X-Gateway-Cache: only` is refused (504) without contacting the
    /// upstream; any other miss is forwarded.
    pub fn on_cache_read(&mut self, hit: Option<&CachedResponse>, key: &str, now_ms: i64) -> (r: FlowAction)
        requires
            old(self).stage == FlowStage::CacheRead,
            key_shown_ok(key@),
            hit matches Some(c) ==> i64::MIN <= now_ms - c.finished_at_ms <= i64::MAX,
        ensures
            hit matches Some(c) ==> final(self).stage == FlowStage::Done && final(self).cache_status
                == CacheStatus::Hit && (r matches FlowAction::ServeCached { log, status, headers, body }
                && log_is(log, "success"@, Some(c.status as i32), None, true) && log_chain(log, 0, None) && headers.wf()
                && (status, headers.pairs(), body@) == served_answer(*c, CacheStatus::Hit, key@, now_ms)),
            hit is None && old(self).only_if_cached ==> final(self).stage == FlowStage::Done
                && final(self).cache_status == CacheStatus::Miss && (r matches FlowAction::Refuse {
                error,
                log,
            } && error == ApiError::Gateway(GatewayError::UpstreamTimeout) && log_is(
                log,
                "gateway_error"@,
                Some(504i32),
                Some("cache miss with X-Gateway-Cache: only"@),
                false,
            ) && log_chain(log, 0, None)),
            hit is None && !old(self).only_if_cached ==> final(self).stage == FlowStage::Forwarding
                && final(self).cache_status == CacheStatus::Miss && r is Forward,
            final(self).reads_cache == old(self).reads_cache,
            final(self).only_if_cached == old(self).only_if_cached,
            final(self).has_policy == old(self).has_policy,
            final(self).cacheable == old(self).cacheable,
    {
        match hit {
            Some(c) => {
                self.stage = FlowStage::Done;
                self.cache_status = CacheStatus::Hit;
                let (status, headers, body) = serve_cached(c, CacheStatus::Hit, key, now_ms);
                FlowAction::ServeCached {
                    log: log_entry("success", Some(c.status as i32), None, true),
                    status,
                    headers,
                    body,
                }
            },
            None => {
                self.cache_status = CacheStatus::Miss;
                if self.only_if_cached {
                    self.stage = FlowStage::Done;
                    FlowAction::Refuse {
                        error: ApiError::Gateway(GatewayError::UpstreamTimeout),
                        log: log_entry(
                            "gateway_error",
                            Some(504),
                            Some(String::from_str("cache miss with X-Gateway-Cache: only")),
                            false,
                        ),
                    }
                } else {
                    self.stage = FlowStage::Forwarding;
                    FlowAction::Forward
                }
            },
        }
    }

    /// The provider chain's result, after `attempts` attempts and with the
    /// fallback provider it moved to: an error ends the request with it
    /// (logged by its class, status and message, with the retries and the
    /// fallback); a response is relayed with its status and headers, the
    /// cache headers and a fresh request id, and collected for the cache when
    /// it is to be stored.
    pub fn on_forwarded(
        &mut self,
        result: Result<(u16, HeaderList), GatewayError>,
        attempts: usize,
        fallback_used: Option<String>,
        key: &str,
    ) -> (r: FlowAction)
        requires
            old(self).stage == FlowStage::Forwarding,
            key_shown_ok(key@),
        ensures
            result matches Err(e) ==> final(self).stage == FlowStage::Done && (r matches FlowAction::Refuse {
                error,
                log,
            } && error == ApiError::Gateway(e) && log_is(
                log,
                error_class(e),
                Some(error_status(e) as i32),
                Some(error_message(e)),
                false,
            ) && log_chain(log, retry_count_of(attempts), opt_view(fallback_used))),
            result matches Ok((status, upstream)) ==> final(self).stage == FlowStage::Relaying
                && final(self).write_cache == write_wanted(
                old(self).cache_status,
                status,
                old(self).cacheable,
                old(self).has_policy,
            ) && (r matches FlowAction::Relay { write_cache, status: s, headers, request_id }
                && write_cache == final(self).write_cache && s == status && request_id_shape(request_id@)
                && headers.pairs() == relayed_headers_of(upstream.pairs(), old(self).cache_status, key@, request_id@)
                && (upstream.wf() ==> headers.wf()))
                && final(self).retry_count == retry_count_of(attempts)
                && opt_view(final(self).fallback_used) == opt_view(fallback_used),
            same_setup(*final(self), *old(self)),
    {
        let retry_count = retries(attempts);
        match result {
            Err(e) => {
                self.stage = FlowStage::Done;
                let class = e.classification();
                let status = e.status_code();
                let message = e.message();
                let mut log = log_entry(class, Some(status as i32), Some(message), false);
                log.retry_count = retry_count;
                log.fallback_used = fallback_used;
                FlowAction::Refuse { error: ApiError::Gateway(e), log }
            },
            Ok((status, upstream)) => {
                self.stage = FlowStage::Relaying;
                self.write_cache = should_write(self.cache_status, status, self.cacheable, self.has_policy);
                self.retry_count = retry_count;
                self.fallback_used = fallback_used;
                let request_id = new_request_id();
                let headers = relay_headers(&upstream, self.cache_status, key, request_id.as_str());
                FlowAction::Relay { write_cache: self.write_cache, status, headers, request_id }
            },
        }
    }

    /// The relayed response ended. A stream that broke off is logged as an
    /// upstream error and nothing more is done; a complete one is logged as
    /// a success when 2xx (else an upstream error), stored when it was
    /// collected and fit, and accounted. Either log carries the chain's
    /// retries and fallback.
    pub fn on_relay_end(&mut self, upstream_status: u16, broke_off: bool, collected_fits: bool) -> (r: FlowAction)
        requires
            old(self).stage == FlowStage::Relaying,
        ensures
            final(self).stage == FlowStage::Done,
            same_setup(*final(self), *old(self)),
            broke_off ==> (r matches FlowAction::Complete { log, store_cache, account } && log_is(
                log,
                "upstream_error"@,
                Some(upstream_status as i32),
                None,
                false,
            ) && log_chain(log, old(self).retry_count, opt_view(old(self).fallback_used)) && !store_cache
                && !account),
            !broke_off ==> (r matches FlowAction::Complete { log, store_cache, account } && log_is(
                log,
                if 200 <= upstream_status <= 299 {
                    "success"@
                } else {
                    "upstream_error"@
                },
                Some(upstream_status as i32),
                None,
                false,
            ) && log_chain(log, old(self).retry_count, opt_view(old(self).fallback_used))
                && store_cache == (old(self).write_cache && collected_fits) && account),
    {
        self.stage = FlowStage::Done;
        let status = if broke_off || !(200 <= upstream_status && upstream_status <= 299) {
            "upstream_error"
        } else {
            "success"
        };
        let mut log = log_entry(status, Some(upstream_status as i32), None, false);
        log.retry_count = self.retry_count;
        log.fallback_used = copy_opt(&self.fallback_used);
        FlowAction::Complete {
            log,
            store_cache: !broke_off && self.write_cache && collected_fits,
            account: !broke_off,
        }
    }
}

} // verus!
