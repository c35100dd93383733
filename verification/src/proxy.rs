//! Forwarding: the upstream URL and headers, the route for a provider, and
//! what the gateway keeps of request and response bodies for its logs and
//! cache.
use vstd::prelude::*;
use vstd::string::*;
use vstd::utf8::*;
use vstd::slice::{slice_subrange, slice_to_vec};
use crate::cache::{CachedChunk, CachedResponse, chunks_view};
use crate::config::{AppConfig, RouteConfig};
use crate::headers::{HeaderList, hview, inserted, lemma_lower_idempotent, without};
use crate::json::{JsonValue, json_get, json_str};
use crate::providers::{ResolvedProvider, header_value, header_value_ok, injected, pair_views};
use crate::text::{
    ascii_lower, chars_of, decimal, has_prefix, lemma_encode_concat, push_str, starts_with,
    str_eq, string_of, sub_chars, to_ascii_lower, u64_to_decimal, utf8_string,
};

verus! {

/// `s` without trailing `/` characters (`trim_end_matches('/')`).
pub open spec fn trim_end_slashes(s: Seq<char>) -> Seq<char>
    decreases s.len(),
{
    if s.len() > 0 && s.last() == '/' {
        trim_end_slashes(s.drop_last())
    } else {
        s
    }
}

/// `s` without leading `/` characters (`trim_start_matches('/')`).
pub open spec fn trim_start_slashes(s: Seq<char>) -> Seq<char>
    decreases s.len(),
{
    if s.len() > 0 && s[0] == '/' {
        trim_start_slashes(s.drop_first())
    } else {
        s
    }
}

/// The path sent upstream for the route tail: one leading `/`, then the tail
/// without its leading slashes.
pub fn upstream_path(tail: &str) -> (r: String)
    ensures
        r@ == seq!['/'] + trim_start_slashes(tail@),
{
    let v = chars_of(tail);
    let mut k: usize = 0;
    assert(tail@.skip(0) =~= tail@);
    while k < v.len() && v[k] == '/'
        invariant
            k <= v@.len(),
            v@ == tail@,
            trim_start_slashes(tail@) == trim_start_slashes(tail@.skip(k as int)),
        decreases v@.len() - k,
    {
        assert(tail@.skip(k as int).drop_first() =~= tail@.skip(k + 1));
        k = k + 1;
    }
    proof {
        if k < v@.len() {
            assert(tail@.skip(k as int)[0] == v@[k as int]);
        }
    }
    let rest = sub_chars(&v, k, v.len());
    assert(rest@ =~= tail@.skip(k as int));
    let mut out: Vec<char> = Vec::new();
    out.push('/');
    let n = rest.len();
    for i in 0..n
        invariant
            n == rest@.len(),
            out@ == seq!['/'] + rest@.take(i as int),
    {
        out.push(rest[i]);
        assert(out@ =~= seq!['/'] + rest@.take(i + 1));
    }
    assert(rest@.take(n as int) =~= rest@);
    string_of(&out)
}

/// The upstream URL: the base without trailing slashes, the path with one
/// leading slash, and `?query` when a non-empty query is given.
pub open spec fn url_of(base: Seq<char>, path: Seq<char>, query: Option<Seq<char>>) -> Seq<char> {
    let p = if has_prefix(path, "/"@) {
        path
    } else {
        "/"@ + path
    };
    let q = match query {
        Some(q) => if q.len() > 0 {
            "?"@ + q
        } else {
            Seq::empty()
        },
        None => Seq::empty(),
    };
    trim_end_slashes(base) + p + q
}

/// Trailing slashes after position `k` do not change the trimmed text.
proof fn lemma_trim_end_slashes(s: Seq<char>, k: int)
    requires
        0 <= k <= s.len(),
        forall|j: int| k <= j < s.len() ==> s[j] == '/',
    ensures
        trim_end_slashes(s) == trim_end_slashes(s.take(k)),
    decreases s.len() - k,
{
    if k < s.len() {
        assert(s.drop_last().take(k) =~= s.take(k));
        lemma_trim_end_slashes(s.drop_last(), k);
    } else {
        assert(s.take(k) =~= s);
    }
}

fn trim_trailing_slashes(s: &str) -> (r: String)
    ensures
        r@ == trim_end_slashes(s@),
{
    let v = chars_of(s);
    let mut k = v.len();
    while k > 0 && v[k - 1] == '/'
        invariant
            k <= v@.len(),
            v@ == s@,
            forall|j: int| k <= j < v@.len() ==> v@[j] == '/',
        decreases k,
    {
        k = k - 1;
    }
    proof {
        lemma_trim_end_slashes(s@, k as int);
        assert(s@.take(k as int) =~= v@.take(k as int));
    }
    let t = sub_chars(&v, 0, k);
    assert(t@ =~= s@.take(k as int));
    string_of(&t)
}

/// Joins a provider's base URL, the request path and the query.
pub fn build_url(base: &str, path: &str, query: Option<&str>) -> (r: Result<String, crate::error::GatewayError>)
    ensures
        r matches Ok(u) && u@ == url_of(
            base@,
            path@,
            match query {
                Some(q) => Some(q@),
                None => None,
            },
        ),
{
    let mut url = trim_trailing_slashes(base);
    if !starts_with(path, "/") {
        push_str(&mut url, "/");
    }
    push_str(&mut url, path);
    match query {
        Some(q) => {
            if q.unicode_len() > 0 {
                push_str(&mut url, "?");
                push_str(&mut url, q);
            }
        },
        None => {},
    }
    proof {
        let b = trim_end_slashes(base@);
        if has_prefix(path@, "/"@) {
            assert(b + path@ == b + path@);
        } else {
            assert(b + "/"@ + path@ =~= b + ("/"@ + path@));
        }
        match query {
            Some(q) => {
                if q@.len() > 0 {
                    assert(b + (if has_prefix(path@, "/"@) { path@ } else { "/"@ + path@ }) + "?"@ + q@
                        =~= b + (if has_prefix(path@, "/"@) { path@ } else { "/"@ + path@ }) + ("?"@ + q@));
                } else {
                    assert(url@ =~= url@ + Seq::<char>::empty());
                }
            },
            None => {
                assert(url@ =~= url@ + Seq::<char>::empty());
            },
        }
    }
    Ok(url)
}

/// Request headers never sent upstream: hop-by-hop headers, client auth
/// (the gateway adds its own), and the gateway's own `x-gateway-*` headers.
pub open spec fn request_header_dropped(name: Seq<char>) -> bool {
    let l = ascii_lower(name);
    l == "host"@ || l == "authorization"@ || l == "x-api-key"@ || l == "connection"@ || l
        == "keep-alive"@ || l == "transfer-encoding"@ || l == "te"@ || l == "trailer"@ || l
        == "upgrade"@ || l == "proxy-authenticate"@ || l == "proxy-authorization"@ || l
        == "content-length"@ || has_prefix(l, "x-gateway-"@)
}

/// Response headers never relayed to the client: they belong to the
/// upstream transport.
pub open spec fn response_header_dropped(name: Seq<char>) -> bool {
    let l = ascii_lower(name);
    l == "connection"@ || l == "keep-alive"@ || l == "transfer-encoding"@ || l == "te"@ || l
        == "trailer"@ || l == "upgrade"@ || l == "content-encoding"@ || l == "content-length"@
}

pub open spec fn kept_request_headers(hv: Seq<(Seq<char>, Seq<u8>)>) -> Seq<(Seq<char>, Seq<u8>)>
    decreases hv.len(),
{
    if hv.len() == 0 {
        hv
    } else if request_header_dropped(hv.last().0) {
        kept_request_headers(hv.drop_last())
    } else {
        kept_request_headers(hv.drop_last()).push(hv.last())
    }
}

pub open spec fn kept_response_headers(hv: Seq<(Seq<char>, Seq<u8>)>) -> Seq<(Seq<char>, Seq<u8>)>
    decreases hv.len(),
{
    if hv.len() == 0 {
        hv
    } else if response_header_dropped(hv.last().0) {
        kept_response_headers(hv.drop_last())
    } else {
        kept_response_headers(hv.drop_last()).push(hv.last())
    }
}

fn drops_request_header(name: &str) -> (r: bool)
    ensures
        r == request_header_dropped(name@),
{
    let l = to_ascii_lower(name);
    let l = l.as_str();
    str_eq(l, "host") || str_eq(l, "authorization") || str_eq(l, "x-api-key") || str_eq(
        l,
        "connection",
    ) || str_eq(l, "keep-alive") || str_eq(l, "transfer-encoding") || str_eq(l, "te") || str_eq(
        l,
        "trailer",
    ) || str_eq(l, "upgrade") || str_eq(l, "proxy-authenticate") || str_eq(
        l,
        "proxy-authorization",
    ) || str_eq(l, "content-length") || starts_with(l, "x-gateway-")
}

fn drops_response_header(name: &str) -> (r: bool)
    ensures
        r == response_header_dropped(name@),
{
    let l = to_ascii_lower(name);
    let l = l.as_str();
    str_eq(l, "connection") || str_eq(l, "keep-alive") || str_eq(l, "transfer-encoding")
        || str_eq(l, "te") || str_eq(l, "trailer") || str_eq(l, "upgrade") || str_eq(
        l,
        "content-encoding",
    ) || str_eq(l, "content-length")
}

/// The client's headers that may go upstream, in order.
pub fn filter_request_headers(src: &HeaderList) -> (r: HeaderList)
    ensures
        r.pairs() == kept_request_headers(src.pairs()),
        src.wf() ==> r.wf(),
{
    let mut out = HeaderList::new();
    let n = src.entries.len();
    for i in 0..n
        invariant
            n == src.entries@.len(),
            out.pairs() == kept_request_headers(hview(src.entries@.take(i as int))),
            src.wf() ==> out.wf(),
    {
        assert(hview(src.entries@.take(i + 1)).drop_last() =~= hview(src.entries@.take(i as int)));
        let h = &src.entries[i];
        if !drops_request_header(h.name.as_str()) {
            let c = h.copy();
            assert(src.pairs()[i as int].0 == h.name@);
            out.append(c.name, c.value);
        }
    }
    assert(src.entries@.take(n as int) =~= src.entries@);
    out
}

/// The upstream's headers that are relayed to the client, in order.
pub fn filter_response_headers(src: &HeaderList) -> (r: HeaderList)
    ensures
        r.pairs() == kept_response_headers(src.pairs()),
        src.wf() ==> r.wf(),
{
    let mut out = HeaderList::new();
    let n = src.entries.len();
    for i in 0..n
        invariant
            n == src.entries@.len(),
            out.pairs() == kept_response_headers(hview(src.entries@.take(i as int))),
            src.wf() ==> out.wf(),
    {
        assert(hview(src.entries@.take(i + 1)).drop_last() =~= hview(src.entries@.take(i as int)));
        let h = &src.entries[i];
        if !drops_response_header(h.name.as_str()) {
            let c = h.copy();
            assert(src.pairs()[i as int].0 == h.name@);
            out.append(c.name, c.value);
        }
    }
    assert(src.entries@.take(n as int) =~= src.entries@);
    out
}

/// A character that `HeaderName` accepts in a name: an ASCII letter or digit,
/// or one of `` !#$%&'*+-.^_`|~ ``.
pub open spec fn token_char(c: char) -> bool {
    ('a' <= c && c <= 'z') || ('A' <= c && c <= 'Z') || ('0' <= c && c <= '9') || c == '!' || c == '#'
        || c == '$' || c == '%' || c == '&' || c == '\'' || c == '*' || c == '+' || c == '-' || c
        == '.' || c == '^' || c == '_' || c == '`' || c == '|' || c == '~'
}

/// What `http::HeaderName::try_from` makes of a name: from 1 to 65535
/// token characters, lowered; `None` for anything else.
pub open spec fn http_header_name(text: Seq<char>) -> Option<Seq<char>> {
    if 1 <= text.len() <= 65535 && forall|i: int| 0 <= i < text.len() ==> token_char(#[trigger] text[i]) {
        Some(ascii_lower(text))
    } else {
        None
    }
}

/// Calls `http::HeaderName::try_from`. Trusted: it accepts a non-empty name
/// of at most `MAX_HEADER_NAME_LEN` (65535) bytes, each of which its
/// `HEADER_CHARS` table maps to a non-zero byte (the token characters), and
/// gives back the name with ASCII letters lowered.
#[verifier::external_body]
pub(crate) fn header_name(text: &str) -> (r: Option<String>)
    ensures
        match r {
            Some(n) => http_header_name(text@) == Some(n@),
            None => http_header_name(text@) is None,
        },
{
    http::header::HeaderName::try_from(text).ok().map(|n| n.as_str().to_string())
}

/// The headers after a provider's extra headers are set, in order; an extra
/// header with an invalid name or value is skipped.
pub open spec fn with_extras(hv: Seq<(Seq<char>, Seq<u8>)>, extras: Seq<(Seq<char>, Seq<char>)>) -> Seq<
    (Seq<char>, Seq<u8>),
>
    decreases extras.len(),
{
    if extras.len() == 0 {
        hv
    } else {
        let h = with_extras(hv, extras.drop_last());
        let (k, v) = extras.last();
        match http_header_name(k) {
            Some(n) => if header_value_ok(encode_utf8(v)) {
                inserted(h, n, encode_utf8(v))
            } else {
                h
            },
            None => h,
        }
    }
}

/// The headers sent upstream: the client's forwardable headers, the
/// provider's auth, its extra headers, and never a `host` header.
pub open spec fn upstream_headers_of(client: Seq<(Seq<char>, Seq<u8>)>, p: ResolvedProvider) -> Seq<
    (Seq<char>, Seq<u8>),
> {
    without(
        with_extras(
            injected(p.auth, kept_request_headers(client), p.api_key@),
            pair_views(p.extra_headers@),
        ),
        "host"@,
    )
}

pub fn upstream_headers(client: &HeaderList, provider: &ResolvedProvider) -> (r: HeaderList)
    ensures
        r.pairs() == upstream_headers_of(client.pairs(), *provider),
        client.wf() ==> r.wf(),
{
    let mut headers = filter_request_headers(client);
    provider.auth.inject(&mut headers, provider.api_key.as_str());
    let ghost start = headers.pairs();
    let n = provider.extra_headers.len();
    for i in 0..n
        invariant
            n == provider.extra_headers@.len(),
            headers.pairs() == with_extras(start, pair_views(provider.extra_headers@).take(i as int)),
            client.wf() ==> headers.wf(),
    {
        assert(pair_views(provider.extra_headers@).take(i + 1).drop_last() =~= pair_views(
            provider.extra_headers@,
        ).take(i as int));
        let (k, v) = &provider.extra_headers[i];
        let name = header_name(k.as_str());
        let value = header_value(v.as_str());
        match (name, value) {
            (Some(nm), Some(val)) => {
                proof {
                    lemma_lower_idempotent(k@);
                }
                headers.insert(nm.as_str(), val);
            },
            _ => {},
        }
    }
    assert(pair_views(provider.extra_headers@).take(n as int) =~= pair_views(provider.extra_headers@));
    headers.remove("host");
    headers
}

/// The first route whose primary target is the provider.
pub open spec fn route_index(routes: Seq<RouteConfig>, provider: Seq<char>) -> Option<int>
    decreases routes.len(),
{
    if routes.len() == 0 {
        None
    } else {
        match route_index(routes.drop_last(), provider) {
            Some(i) => Some(i),
            None => if routes.last().primary.provider@ == provider {
                Some(routes.len() - 1)
            } else {
                None
            },
        }
    }
}

proof fn lemma_route_index_prefix(routes: Seq<RouteConfig>, k: int, provider: Seq<char>)
    requires
        0 < k <= routes.len(),
        route_index(routes.take(k), provider) is Some,
    ensures
        route_index(routes, provider) == route_index(routes.take(k), provider),
    decreases routes.len() - k,
{
    if k < routes.len() {
        assert(routes.take(k + 1).drop_last() =~= routes.take(k));
        lemma_route_index_prefix(routes, k + 1, provider);
    } else {
        assert(routes.take(k) =~= routes);
    }
}

/// The route for a provider: the first whose primary target names it.
pub fn find_route(config: &AppConfig, provider: &str) -> (r: Option<usize>)
    ensures
        match route_index(config.routes@, provider@) {
            Some(i) => r == Some(i as usize),
            None => r is None,
        },
{
    let n = config.routes.len();
    for i in 0..n
        invariant
            n == config.routes@.len(),
            route_index(config.routes@.take(i as int), provider@) is None,
    {
        assert(config.routes@.take(i + 1).drop_last() =~= config.routes@.take(i as int));
        if str_eq(config.routes[i].primary.provider.as_str(), provider) {
            proof {
                lemma_route_index_prefix(config.routes@, i + 1, provider@);
            }
            return Some(i);
        }
    }
    assert(config.routes@.take(n as int) =~= config.routes@);
    None
}

/// Bytes of a body kept for the logs.
pub const MAX_LOG_BODY_BYTES: usize = 65536;

/// Bytes of a response body that may be stored in the cache.
pub const MAX_CACHEABLE_BODY_BYTES: usize = 2097152;

/// Appended where a logged body was cut.
pub open spec fn truncation_mark() -> Seq<char> {
    "\n\u{2026}[truncated]"@
}

/// Logged in place of a body that is not UTF-8.
pub open spec fn binary_note(n: nat) -> Seq<char> {
    "[binary "@ + decimal(n) + " bytes]"@
}

pub open spec fn min_nat(a: nat, b: nat) -> nat {
    if a < b {
        a
    } else {
        b
    }
}

/// A request body as logged: nothing when empty; its first 64 KiB as text
/// (marked when cut) when they are UTF-8; else a note of its size.
pub open spec fn request_body_for_log(body: Seq<u8>) -> Option<Seq<char>> {
    if body.len() == 0 {
        None
    } else {
        let head = body.take(min_nat(body.len(), MAX_LOG_BODY_BYTES as nat) as int);
        if valid_utf8(head) {
            if head.len() < body.len() {
                Some(decode_utf8(head) + truncation_mark())
            } else {
                Some(decode_utf8(head))
            }
        } else {
            Some(binary_note(body.len()))
        }
    }
}

fn binary_text(n: usize) -> (r: String)
    ensures
        r@ == binary_note(n as nat),
{
    let mut s = String::from_str("[binary ");
    let d = u64_to_decimal(n as u64);
    push_str(&mut s, d.as_str());
    push_str(&mut s, " bytes]");
    s
}

pub fn clip_body_for_log(body: &[u8]) -> (r: Option<String>)
    ensures
        match request_body_for_log(body@) {
            Some(t) => r matches Some(s) && s@ == t,
            None => r is None,
        },
{
    if body.len() == 0 {
        return None;
    }
    let take = if body.len() < MAX_LOG_BODY_BYTES {
        body.len()
    } else {
        MAX_LOG_BODY_BYTES
    };
    let head = slice_to_vec(slice_subrange(body, 0, take));
    assert(head@ =~= body@.take(take as int));
    match utf8_string(head) {
        Ok(s) => {
            if take < body.len() {
                let mut s = s;
                push_str(&mut s, "\n\u{2026}[truncated]");
                Some(s)
            } else {
                Some(s)
            }
        },
        Err(_) => Some(binary_text(body.len())),
    }
}

/// A captured response body as logged: nothing when empty; the text, or a
/// note of its size when it is not UTF-8; marked when the capture was cut.
pub open spec fn captured_for_log(buf: Seq<u8>, truncated: bool) -> Option<Seq<char>> {
    if buf.len() == 0 {
        None
    } else {
        let t = if valid_utf8(buf) {
            decode_utf8(buf)
        } else {
            binary_note(buf.len())
        };
        if truncated {
            Some(t + truncation_mark())
        } else {
            Some(t)
        }
    }
}

pub fn captured_body_to_string(buf: &[u8], truncated: bool) -> (r: Option<String>)
    ensures
        match captured_for_log(buf@, truncated) {
            Some(t) => r matches Some(s) && s@ == t,
            None => r is None,
        },
{
    if buf.len() == 0 {
        return None;
    }
    let mut s = match utf8_string(slice_to_vec(buf)) {
        Ok(s) => s,
        Err(_) => binary_text(buf.len()),
    };
    if truncated {
        push_str(&mut s, "\n\u{2026}[truncated]");
    }
    Some(s)
}

/// The `model` named in a request: the string member `model` of its JSON
/// body. `parsed` is the body parsed as JSON, `None` when it is not JSON.
pub open spec fn model_of(body: Seq<u8>, parsed: Option<JsonValue>) -> Option<Seq<char>> {
    if body.len() == 0 {
        None
    } else {
        match parsed {
            Some(v) => match json_get(v, "model"@) {
                Some(m) => json_str(m),
                None => None,
            },
            None => None,
        }
    }
}

pub fn extract_model(body: &[u8], parsed: Option<&JsonValue>) -> (r: Option<String>)
    ensures
        match model_of(
            body@,
            match parsed {
                Some(v) => Some(*v),
                None => None,
            },
        ) {
            Some(t) => r matches Some(s) && s@ == t,
            None => r is None,
        },
{
    if body.len() == 0 {
        return None;
    }
    match parsed {
        Some(v) => match v.get("model") {
            Some(m) => match m.as_str() {
                Some(s) => Some(String::from_str(s)),
                None => None,
            },
            None => None,
        },
        None => None,
    }
}

/// The bytes of a cached body shown in the logs: each chunk that is UTF-8,
/// until 64 KiB are shown; the mark follows when chunks remain past that.
pub open spec fn preview_bytes(chunks: Seq<Seq<u8>>, out: Seq<u8>) -> Seq<u8>
    decreases chunks.len(),
{
    if chunks.len() == 0 {
        out
    } else if out.len() >= MAX_LOG_BODY_BYTES {
        out + encode_utf8(truncation_mark())
    } else {
        let c = chunks[0];
        let next = if valid_utf8(c) {
            out + c.take(min_nat(c.len(), (MAX_LOG_BODY_BYTES - out.len()) as nat) as int)
        } else {
            out
        };
        preview_bytes(chunks.drop_first(), next)
    }
}

/// Each chunk that is cut is cut between two characters (the cut is a
/// `str` slice).
pub open spec fn preview_cuts_ok(chunks: Seq<Seq<u8>>, used: nat) -> bool
    decreases chunks.len(),
{
    if chunks.len() == 0 || used >= MAX_LOG_BODY_BYTES {
        true
    } else {
        let c = chunks[0];
        if valid_utf8(c) {
            let k = min_nat(c.len(), (MAX_LOG_BODY_BYTES - used) as nat);
            is_char_boundary(c, k as int) && preview_cuts_ok(chunks.drop_first(), used + k)
        } else {
            preview_cuts_ok(chunks.drop_first(), used)
        }
    }
}

/// The body of a cached response as logged on a hit.
pub fn cached_body_preview(cached: &CachedResponse) -> (r: Option<String>)
    requires
        preview_cuts_ok(chunks_view(cached.chunks@), 0),
    ensures
        ({
            let b = preview_bytes(chunks_view(cached.chunks@), Seq::empty());
            if b.len() == 0 {
                r is None
            } else {
                r matches Some(s) && encode_utf8(s@) == b
            }
        }),
{
    let ghost all = chunks_view(cached.chunks@);
    let mut out = String::new();
    let n = cached.chunks.len();
    let mut i: usize = 0;
    proof {
        assert(encode_utf8(out@) =~= Seq::<u8>::empty());
        assert(all.skip(0) =~= all);
    }
    while i < n
        invariant
            n == cached.chunks@.len(),
            all == chunks_view(cached.chunks@),
            i <= n,
            encode_utf8(out@).len() <= MAX_LOG_BODY_BYTES,
            preview_bytes(all, Seq::empty()) == preview_bytes(all.skip(i as int), encode_utf8(out@)),
            preview_cuts_ok(all.skip(i as int), encode_utf8(out@).len()),
        decreases n - i,
    {
        let used = out.as_str().len();
        assert(used == encode_utf8(out@).len());
        let ghost rest = all.skip(i as int);
        assert(rest[0] == cached.chunks@[i as int].data@);
        assert(rest.drop_first() =~= all.skip(i + 1));
        if used >= MAX_LOG_BODY_BYTES {
            let ghost before = out@;
            push_str(&mut out, "\n\u{2026}[truncated]");
            proof {
                lemma_encode_concat(before, truncation_mark());
            }
            assert(encode_utf8(out@) == preview_bytes(all, Seq::empty()));
            return Some(out);
        }
        let c = &cached.chunks[i].data;
        assert(rest.len() > 0);
        assert(preview_bytes(rest, encode_utf8(out@)) == preview_bytes(
            rest.drop_first(),
            if valid_utf8(c@) {
                encode_utf8(out@) + c@.take(min_nat(c@.len(), (MAX_LOG_BODY_BYTES - used) as nat) as int)
            } else {
                encode_utf8(out@)
            },
        ));
        assert(preview_cuts_ok(rest, used as nat) == if valid_utf8(c@) {
            is_char_boundary(c@, min_nat(c@.len(), (MAX_LOG_BODY_BYTES - used) as nat) as int)
                && preview_cuts_ok(
                rest.drop_first(),
                (used + min_nat(c@.len(), (MAX_LOG_BODY_BYTES - used) as nat)) as nat,
            )
        } else {
            preview_cuts_ok(rest.drop_first(), used as nat)
        });
        match utf8_string(slice_to_vec(c.as_slice())) {
            Ok(s) => {
                let remaining = MAX_LOG_BODY_BYTES - used;
                let t = s.as_str();
                proof {
                    decode_utf8_encode_utf8(c@);
                }
                assert(t.spec_bytes() == encode_utf8(t@));
                assert(encode_utf8(t@) == c@);
                let k = if c.len() < remaining {
                    c.len()
                } else {
                    remaining
                };
                let (head, _tail) = t.split_at(k);
                assert(head.spec_bytes() == encode_utf8(head@));
                let ghost before = out@;
                push_str(&mut out, head);
                proof {
                    lemma_encode_concat(before, head@);
                    assert(c@.take(k as int) =~= c@.subrange(0, k as int));
                    assert(encode_utf8(out@) == encode_utf8(before) + c@.take(k as int));
                }
            },
            Err(_) => {},
        }
        i = i + 1;
    }
    proof {
        assert(all.skip(n as int) =~= Seq::<Seq<u8>>::empty());
    }
    if out.as_str().len() == 0 {
        None
    } else {
        Some(out)
    }
}

/// Copies the start of a streamed body, up to a limit, as it passes through;
/// records whether anything was left out.
pub struct Capture {
    pub accumulator: Vec<u8>,
    pub max_capture: usize,
    pub truncated: bool,
}

/// The capture after one more chunk passed.
pub open spec fn absorbed(acc: Seq<u8>, max: nat, truncated: bool, chunk: Seq<u8>) -> (Seq<u8>, bool) {
    if acc.len() < max {
        let take = min_nat((max - acc.len()) as nat, chunk.len());
        (acc + chunk.take(take as int), truncated || take < chunk.len())
    } else {
        (acc, truncated || chunk.len() > 0)
    }
}

/// What a capture holds after `seen` passed: its first `max` bytes.
pub open spec fn captured_of(seen: Seq<u8>, max: nat) -> Seq<u8> {
    seen.take(min_nat(seen.len(), max) as int)
}

impl Capture {
    pub fn new(max_capture: usize) -> (r: Capture)
        ensures
            r.accumulator@ == Seq::<u8>::empty(),
            r.max_capture == max_capture,
            !r.truncated,
    {
        Capture { accumulator: Vec::new(), max_capture, truncated: false }
    }

    pub fn captured(&self) -> (r: &[u8])
        ensures
            r@ == self.accumulator@,
    {
        self.accumulator.as_slice()
    }

    pub fn truncated(&self) -> (r: bool)
        ensures
            r == self.truncated,
    {
        self.truncated
    }

    pub fn into_captured(self) -> (r: (Vec<u8>, bool))
        ensures
            r.0@ == self.accumulator@,
            r.1 == self.truncated,
    {
        (self.accumulator, self.truncated)
    }

    /// Records a chunk that passes through.
    pub fn absorb(&mut self, chunk: &[u8])
        ensures
            final(self).max_capture == old(self).max_capture,
            (final(self).accumulator@, final(self).truncated) == absorbed(
                old(self).accumulator@,
                old(self).max_capture as nat,
                old(self).truncated,
                chunk@,
            ),
    {
        if self.accumulator.len() < self.max_capture {
            let remaining = self.max_capture - self.accumulator.len();
            let take = if remaining < chunk.len() {
                remaining
            } else {
                chunk.len()
            };
            let n0 = self.accumulator.len();
            for j in 0..take
                invariant
                    take <= chunk@.len(),
                    self.max_capture == old(self).max_capture,
                    self.truncated == old(self).truncated,
                    n0 == old(self).accumulator@.len(),
                    self.accumulator@ == old(self).accumulator@ + chunk@.take(j as int),
            {
                self.accumulator.push(chunk[j]);
                assert(self.accumulator@ =~= old(self).accumulator@ + chunk@.take(j + 1));
            }
            if take < chunk.len() {
                self.truncated = true;
            }
        } else if chunk.len() > 0 {
            self.truncated = true;
        }
    }
}

/// Capturing keeps the first `max` bytes of everything that passed, and
/// says whether anything was left out.
pub proof fn lemma_capture_is_prefix(seen: Seq<u8>, max: nat, chunk: Seq<u8>)
    ensures
        absorbed(captured_of(seen, max), max, seen.len() > max, chunk) == (
            captured_of(seen + chunk, max),
            (seen + chunk).len() > max,
        ),
{
    let acc = captured_of(seen, max);
    let all = seen + chunk;
    if acc.len() < max {
        assert(acc =~= seen);
        let take = min_nat((max - acc.len()) as nat, chunk.len());
        assert(acc + chunk.take(take as int) =~= all.take(min_nat(all.len(), max) as int));
    } else {
        assert(acc =~= all.take(min_nat(all.len(), max) as int));
    }
}

/// Collects a response body for the cache while it streams, giving up once
/// it exceeds 2 MiB.
pub struct CacheCapture {
    should_write: bool,
    chunks: Vec<CachedChunk>,
    total: usize,
    oversize: bool,
    /// The chunks fed so far.
    fed: Ghost<Seq<Seq<u8>>>,
}

/// Total length of some chunks.
pub open spec fn total_len(cs: Seq<Seq<u8>>) -> nat
    decreases cs.len(),
{
    if cs.len() == 0 {
        0
    } else {
        total_len(cs.drop_last()) + cs.last().len()
    }
}

impl CacheCapture {
    /// The chunks fed so far.
    pub closed spec fn fed(self) -> Seq<Seq<u8>> {
        self.fed@
    }

    pub closed spec fn wants(self) -> bool {
        self.should_write
    }

    /// The collected chunks.
    pub closed spec fn kept(self) -> Seq<Seq<u8>> {
        chunks_view(self.chunks@)
    }

    pub closed spec fn gave_up(self) -> bool {
        self.oversize
    }

    /// When the response is to be stored, the collector holds every chunk
    /// fed while they total at most 2 MiB, and nothing once they exceed it.
    #[verifier::type_invariant]
    spec fn holds(self) -> bool {
        if !self.should_write {
            self.chunks@.len() == 0 && !self.oversize
        } else if self.oversize {
            total_len(self.fed@) > MAX_CACHEABLE_BODY_BYTES && self.chunks@.len() == 0
        } else {
            chunks_view(self.chunks@) == self.fed@ && self.total == total_len(self.fed@)
                && self.total <= MAX_CACHEABLE_BODY_BYTES
        }
    }

    pub fn new(should_write: bool) -> (r: CacheCapture)
        ensures
            r.wants() == should_write,
            r.fed() == Seq::<Seq<u8>>::empty(),
            r.kept() == Seq::<Seq<u8>>::empty(),
            !r.gave_up(),
    {
        let chunks: Vec<CachedChunk> = Vec::new();
        assert(chunks_view(chunks@) =~= Seq::<Seq<u8>>::empty());
        CacheCapture { should_write, chunks, total: 0, oversize: false, fed: Ghost(Seq::empty()) }
    }

    /// The collector after a chunk of the response.
    pub fn absorb(self, chunk: &[u8]) -> (r: CacheCapture)
        ensures
            r.wants() == self.wants(),
            r.fed() == self.fed().push(chunk@),
            !r.wants() ==> r.kept() == Seq::<Seq<u8>>::empty() && !r.gave_up(),
            r.wants() ==> (r.gave_up() <==> total_len(r.fed()) > MAX_CACHEABLE_BODY_BYTES),
            r.wants() && !r.gave_up() ==> r.kept() == r.fed(),
            r.gave_up() ==> r.kept() == Seq::<Seq<u8>>::empty(),
    {
        proof {
            use_type_invariant(&self);
        }
        let ghost fed = self.fed@;
        let ghost now = fed.push(chunk@);
        assert(now.drop_last() =~= fed);
        let CacheCapture { should_write, chunks, total, oversize, fed: _ } = self;
        if should_write && !oversize {
            let t = total.saturating_add(chunk.len());
            if t > MAX_CACHEABLE_BODY_BYTES {
                let empty: Vec<CachedChunk> = Vec::new();
                assert(chunks_view(empty@) =~= Seq::<Seq<u8>>::empty());
                CacheCapture { should_write, chunks: empty, total: t, oversize: true, fed: Ghost(now) }
            } else {
                let mut chunks = chunks;
                let ghost before = chunks@;
                chunks.push(CachedChunk { data: slice_to_vec(chunk) });
                assert(chunks_view(chunks@) =~= chunks_view(before).push(chunk@));
                CacheCapture { should_write, chunks, total: t, oversize, fed: Ghost(now) }
            }
        } else {
            assert(chunks_view(chunks@) =~= Seq::<Seq<u8>>::empty());
            CacheCapture { should_write, chunks, total, oversize, fed: Ghost(now) }
        }
    }

    /// The collected chunks, when the response is to be stored and fit.
    pub fn into_chunks(self) -> (r: Option<Vec<CachedChunk>>)
        ensures
            match r {
                Some(cs) => self.wants() && !self.gave_up() && chunks_view(cs@) == self.fed(),
                None => !self.wants() || self.gave_up(),
            },
    {
        proof {
            use_type_invariant(&self);
        }
        if self.should_write && !self.oversize {
            Some(self.chunks)
        } else {
            None
        }
    }
}

/// No entry named `name` is left after removing `name`.
proof fn lemma_without_removes(hv: Seq<(Seq<char>, Seq<u8>)>, name: Seq<char>)
    ensures
        !crate::headers::named_in(without(hv, name), name),
    decreases hv.len(),
{
    if hv.len() > 0 {
        lemma_without_removes(hv.drop_last(), name);
        if hv.last().0 != name {
            let w = without(hv.drop_last(), name);
            assert(w.push(hv.last()).drop_last() =~= w);
        }
    }
}

/// Whatever the client sends, the upstream request carries no `host`
/// header.
pub proof fn lemma_upstream_has_no_host(client: Seq<(Seq<char>, Seq<u8>)>, p: ResolvedProvider)
    ensures
        !crate::headers::named_in(upstream_headers_of(client, p), "host"@),
{
    lemma_without_removes(
        with_extras(injected(p.auth, kept_request_headers(client), p.api_key@), pair_views(p.extra_headers@)),
        "host"@,
    );
}

/// Every client header that is forwarded is one that may be forwarded: no
/// client credentials, hop-by-hop header or `x-gateway-*` header survives the
/// filter.
pub proof fn lemma_forwarded_headers_allowed(hv: Seq<(Seq<char>, Seq<u8>)>)
    ensures
        forall|i: int|
            0 <= i < kept_request_headers(hv).len() ==> !request_header_dropped(
                #[trigger] kept_request_headers(hv)[i].0,
            ),
    decreases hv.len(),
{
    if hv.len() > 0 {
        lemma_forwarded_headers_allowed(hv.drop_last());
        let k0 = kept_request_headers(hv.drop_last());
        let k = kept_request_headers(hv);
        if !request_header_dropped(hv.last().0) {
            assert forall|i: int| 0 <= i < k.len() implies !request_header_dropped(#[trigger] k[i].0) by {
                if i < k0.len() {
                    assert(k[i] == k0[i]);
                }
            }
        }
    }
}

} // verus!
