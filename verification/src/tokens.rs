//! Token usage reported by upstream responses: the OpenAI and Anthropic
//! `usage` shapes, in a whole JSON body or in the `data:` events of a stream.
use vstd::prelude::*;
use vstd::slice::{slice_subrange, slice_to_vec};
use crate::json::{JsonValue, json_get, opt_get, opt_i64};

verus! {

/// Token usage parsed from an upstream response body; `None` where the
/// response does not say.
#[derive(Debug, Default, Clone, Copy, PartialEq, Eq)]
pub struct TokenUsage {
    pub prompt: Option<i64>,
    pub completion: Option<i64>,
    pub cached: Option<i64>,
    pub total: Option<i64>,
}

pub open spec fn no_usage() -> TokenUsage {
    TokenUsage { prompt: None, completion: None, cached: None, total: None }
}

/// The reported total, else prompt plus completion when both are known.
pub open spec fn usage_total(u: TokenUsage) -> Option<i64> {
    match u.total {
        Some(t) => Some(t),
        None => match (u.prompt, u.completion) {
            (Some(p), Some(c)) => Some((p + c) as i64),
            _ => None,
        },
    }
}

/// The sum of prompt and completion fits in `i64` whenever it is needed.
pub open spec fn total_fits(u: TokenUsage) -> bool {
    u.total is None ==> match (u.prompt, u.completion) {
        (Some(p), Some(c)) => i64::MIN <= p + c <= i64::MAX,
        _ => true,
    }
}

impl TokenUsage {
    pub fn total_tokens(self) -> (r: Option<i64>)
        requires
            total_fits(self),
        ensures
            r == usage_total(self),
    {
        if let Some(t) = self.total {
            Some(t)
        } else {
            match (self.prompt, self.completion) {
                (Some(p), Some(c)) => Some(p + c),
                _ => None,
            }
        }
    }
}

pub open spec fn or_opt<T>(a: Option<T>, b: Option<T>) -> Option<T> {
    if a is Some {
        a
    } else {
        b
    }
}

/// The `usage` object of a response, if it has one.
pub open spec fn usage_object(v: JsonValue) -> Option<JsonValue> {
    match json_get(v, "usage"@) {
        Some(u) => if u is Object {
            Some(u)
        } else {
            None
        },
        None => None,
    }
}

/// Usage read from one JSON response or event: `prompt_tokens` (else
/// `input_tokens`), `completion_tokens` (else `output_tokens`),
/// `total_tokens`, and `prompt_tokens_details.cached_tokens` (else
/// `cache_read_input_tokens`).
pub open spec fn usage_of(v: JsonValue) -> TokenUsage {
    match usage_object(v) {
        None => no_usage(),
        Some(u) => TokenUsage {
            prompt: opt_i64(or_opt(json_get(u, "prompt_tokens"@), json_get(u, "input_tokens"@))),
            completion: opt_i64(
                or_opt(json_get(u, "completion_tokens"@), json_get(u, "output_tokens"@)),
            ),
            total: opt_i64(json_get(u, "total_tokens"@)),
            cached: or_opt(
                opt_i64(opt_get(json_get(u, "prompt_tokens_details"@), "cached_tokens"@)),
                opt_i64(json_get(u, "cache_read_input_tokens"@)),
            ),
        },
    }
}

fn get_i64(v: &JsonValue, key: &str) -> (r: Option<i64>)
    ensures
        r == opt_i64(json_get(*v, key@)),
{
    match v.get(key) {
        Some(x) => x.as_i64(),
        None => None,
    }
}

fn get_either_i64(v: &JsonValue, a: &str, b: &str) -> (r: Option<i64>)
    ensures
        r == opt_i64(or_opt(json_get(*v, a@), json_get(*v, b@))),
{
    match v.get(a) {
        Some(x) => x.as_i64(),
        None => match v.get(b) {
            Some(x) => x.as_i64(),
            None => None,
        },
    }
}

/// Usage from one parsed JSON value (a response body or a stream event).
pub fn usage_from_value(v: &JsonValue) -> (r: TokenUsage)
    ensures
        r == usage_of(*v),
{
    let u = match v.get("usage") {
        Some(u) => if u.is_object() {
            u
        } else {
            return TokenUsage { prompt: None, completion: None, cached: None, total: None };
        },
        None => return TokenUsage { prompt: None, completion: None, cached: None, total: None },
    };
    let prompt = get_either_i64(u, "prompt_tokens", "input_tokens");
    let completion = get_either_i64(u, "completion_tokens", "output_tokens");
    let total = get_i64(u, "total_tokens");
    let detailed = match u.get("prompt_tokens_details") {
        Some(d) => get_i64(d, "cached_tokens"),
        None => None,
    };
    let cached = if detailed.is_some() {
        detailed
    } else {
        get_i64(u, "cache_read_input_tokens")
    };
    TokenUsage { prompt, completion, cached, total }
}

/// Fields reported by `u` replace those of `acc`.
pub open spec fn merge_usage(acc: TokenUsage, u: TokenUsage) -> TokenUsage {
    TokenUsage {
        prompt: or_opt(u.prompt, acc.prompt),
        completion: or_opt(u.completion, acc.completion),
        cached: or_opt(u.cached, acc.cached),
        total: or_opt(u.total, acc.total),
    }
}

/// Usage merged over stream events in order (an event that did not parse
/// contributes nothing).
pub open spec fn events_usage(events: Seq<Option<JsonValue>>) -> TokenUsage
    decreases events.len(),
{
    if events.len() == 0 {
        no_usage()
    } else {
        let acc = events_usage(events.drop_last());
        match events.last() {
            Some(v) => merge_usage(acc, usage_of(v)),
            None => acc,
        }
    }
}

/// Usage of a buffered response: empty bodies report nothing; a body that is
/// one JSON document is read directly; otherwise the `data:` events of a
/// stream (`parsed_events`, in the order `sse_data_payloads` lists them, each
/// parsed if it is JSON) are merged in order.
pub fn extract_token_usage(
    body: &[u8],
    parsed_body: Option<&JsonValue>,
    parsed_events: &Vec<Option<JsonValue>>,
) -> (r: TokenUsage)
    ensures
        body@.len() == 0 ==> r == no_usage(),
        body@.len() > 0 && parsed_body is Some ==> r == usage_of(*parsed_body->Some_0),
        body@.len() > 0 && parsed_body is None ==> r == events_usage(parsed_events@),
{
    if body.len() == 0 {
        return TokenUsage { prompt: None, completion: None, cached: None, total: None };
    }
    if let Some(v) = parsed_body {
        return usage_from_value(v);
    }
    let mut usage = TokenUsage { prompt: None, completion: None, cached: None, total: None };
    let n = parsed_events.len();
    for i in 0..n
        invariant
            n == parsed_events@.len(),
            usage == events_usage(parsed_events@.take(i as int)),
    {
        assert(parsed_events@.take(i + 1).drop_last() =~= parsed_events@.take(i as int));
        if let Some(v) = &parsed_events[i] {
            let u = usage_from_value(v);
            if u.prompt.is_some() {
                usage.prompt = u.prompt;
            }
            if u.completion.is_some() {
                usage.completion = u.completion;
            }
            if u.cached.is_some() {
                usage.cached = u.cached;
            }
            if u.total.is_some() {
                usage.total = u.total;
            }
        }
    }
    assert(parsed_events@.take(n as int) =~= parsed_events@);
    usage
}

/// Space, tab and carriage return.
pub open spec fn is_sp(b: u8) -> bool {
    b == 32 || b == 9 || b == 13
}

pub open spec fn lead_sp(s: Seq<u8>) -> nat
    decreases s.len(),
{
    if s.len() > 0 && is_sp(s[0]) {
        1 + lead_sp(s.drop_first())
    } else {
        0
    }
}

pub open spec fn trail_sp(s: Seq<u8>) -> nat
    decreases s.len(),
{
    if s.len() > 0 && is_sp(s.last()) {
        1 + trail_sp(s.drop_last())
    } else {
        0
    }
}

/// Without leading and trailing spaces, tabs and carriage returns.
pub open spec fn trim_sp(s: Seq<u8>) -> Seq<u8> {
    let t = s.skip(lead_sp(s) as int);
    t.take(t.len() - trail_sp(t))
}

proof fn lemma_lead_sp(s: Seq<u8>)
    ensures
        lead_sp(s) <= s.len(),
        forall|j: int| 0 <= j < lead_sp(s) ==> is_sp(#[trigger] s[j]),
        lead_sp(s) < s.len() ==> !is_sp(s[lead_sp(s) as int]),
    decreases s.len(),
{
    if s.len() > 0 && is_sp(s[0]) {
        lemma_lead_sp(s.drop_first());
        assert forall|j: int| 0 <= j < lead_sp(s) implies is_sp(#[trigger] s[j]) by {
            if j > 0 {
                assert(s[j] == s.drop_first()[j - 1]);
            }
        }
    }
}

proof fn lemma_trail_sp(s: Seq<u8>)
    ensures
        trail_sp(s) <= s.len(),
        forall|j: int| s.len() - trail_sp(s) <= j < s.len() ==> is_sp(#[trigger] s[j]),
        trail_sp(s) < s.len() ==> !is_sp(s[s.len() - trail_sp(s) - 1]),
    decreases s.len(),
{
    if s.len() > 0 && is_sp(s.last()) {
        lemma_trail_sp(s.drop_last());
        assert forall|j: int| s.len() - trail_sp(s) <= j < s.len() implies is_sp(#[trigger] s[j]) by {
            if j < s.len() - 1 {
                assert(s[j] == s.drop_last()[j]);
            }
        }
    }
}

/// A line without surrounding spaces, tabs and carriage returns.
pub fn trim_ascii(s: &[u8]) -> (r: Vec<u8>)
    ensures
        r@ == trim_sp(s@),
{
    let n = s.len();
    let mut start: usize = 0;
    proof {
        lemma_lead_sp(s@);
    }
    while start < n && (s[start] == 32 || s[start] == 9 || s[start] == 13)
        invariant
            start <= n,
            n == s@.len(),
            forall|j: int| 0 <= j < start ==> is_sp(#[trigger] s@[j]),
            lead_sp(s@) <= s@.len(),
            forall|j: int| 0 <= j < lead_sp(s@) ==> is_sp(#[trigger] s@[j]),
            lead_sp(s@) < s@.len() ==> !is_sp(s@[lead_sp(s@) as int]),
        decreases n - start,
    {
        start = start + 1;
    }
    assert(start == lead_sp(s@));
    let t = slice_subrange(s, start, n);
    assert(t@ =~= s@.skip(start as int));
    let m = t.len();
    let mut end: usize = m;
    proof {
        lemma_trail_sp(t@);
    }
    while end > 0 && (t[end - 1] == 32 || t[end - 1] == 9 || t[end - 1] == 13)
        invariant
            end <= m,
            m == t@.len(),
            forall|j: int| end <= j < m ==> is_sp(#[trigger] t@[j]),
            trail_sp(t@) <= t@.len(),
            forall|j: int| t@.len() - trail_sp(t@) <= j < t@.len() ==> is_sp(#[trigger] t@[j]),
            trail_sp(t@) < t@.len() ==> !is_sp(t@[t@.len() - trail_sp(t@) - 1]),
        decreases end,
    {
        end = end - 1;
    }
    assert(end == m - trail_sp(t@));
    let u = slice_to_vec(slice_subrange(t, 0, end));
    assert(u@ =~= t@.take(end as int));
    u
}

/// `split(|b| *b == b'\n')`, with `cur` the part of the line read so far.
pub open spec fn split_lines_from(s: Seq<u8>, cur: Seq<u8>) -> Seq<Seq<u8>>
    decreases s.len(),
{
    if s.len() == 0 {
        seq![cur]
    } else if s[0] == 10 {
        seq![cur] + split_lines_from(s.drop_first(), Seq::empty())
    } else {
        split_lines_from(s.drop_first(), cur.push(s[0]))
    }
}

pub open spec fn split_lines(s: Seq<u8>) -> Seq<Seq<u8>> {
    split_lines_from(s, Seq::empty())
}

/// The payload of a `data: ` event line (trimmed), unless it is `[DONE]`.
pub open spec fn event_payload(line: Seq<u8>) -> Option<Seq<u8>> {
    let t = trim_sp(line);
    let prefix = seq![100u8, 97u8, 116u8, 97u8, 58u8, 32u8];
    let done = seq![91u8, 68u8, 79u8, 78u8, 69u8, 93u8];
    if t.len() >= 6 && t.take(6) == prefix && t.skip(6) != done {
        Some(t.skip(6))
    } else {
        None
    }
}

/// The event payloads of the lines, in order.
pub open spec fn payloads(lines: Seq<Seq<u8>>) -> Seq<Seq<u8>>
    decreases lines.len(),
{
    if lines.len() == 0 {
        Seq::empty()
    } else {
        let rest = payloads(lines.drop_last());
        match event_payload(lines.last()) {
            Some(p) => rest.push(p),
            None => rest,
        }
    }
}

fn line_payload(line: &[u8]) -> (r: Option<Vec<u8>>)
    ensures
        match r {
            Some(p) => event_payload(line@) == Some(p@),
            None => event_payload(line@) is None,
        },
{
    let t = trim_ascii(line);
    let ghost prefix = seq![100u8, 97u8, 116u8, 97u8, 58u8, 32u8];
    let ghost done = seq![91u8, 68u8, 79u8, 78u8, 69u8, 93u8];
    if t.len() < 6 {
        return None;
    }
    if !(t[0] == 100 && t[1] == 97 && t[2] == 116 && t[3] == 97 && t[4] == 58 && t[5] == 32) {
        assert(t@.take(6) != prefix) by {
            assert(t@.take(6)[0] == t@[0]);
            assert(t@.take(6)[1] == t@[1]);
            assert(t@.take(6)[2] == t@[2]);
            assert(t@.take(6)[3] == t@[3]);
            assert(t@.take(6)[4] == t@[4]);
            assert(t@.take(6)[5] == t@[5]);
        }
        return None;
    }
    assert(t@.take(6) =~= prefix);
    let p = slice_to_vec(slice_subrange(t.as_slice(), 6, t.len()));
    assert(p@ =~= t@.skip(6));
    if p.len() == 6 && p[0] == 91 && p[1] == 68 && p[2] == 79 && p[3] == 78 && p[4] == 69 && p[5] == 93 {
        assert(p@ =~= done);
        return None;
    }
    assert(p@ != done) by {
        if p@ == done {
            assert(p@[0] == done[0]);
            assert(p@[1] == done[1]);
            assert(p@[2] == done[2]);
            assert(p@[3] == done[3]);
            assert(p@[4] == done[4]);
            assert(p@[5] == done[5]);
        }
    }
    Some(p)
}

/// The payloads of the `data: ` events of a streamed body, `[DONE]` left out,
/// in order.
pub fn sse_data_payloads(body: &[u8]) -> (r: Vec<Vec<u8>>)
    ensures
        r@.len() == payloads(split_lines(body@)).len(),
        forall|i: int| 0 <= i < r@.len() ==> #[trigger] r@[i]@ == payloads(split_lines(body@))[i],
{
    let n = body.len();
    let mut out: Vec<Vec<u8>> = Vec::new();
    let mut lines_done: Ghost<Seq<Seq<u8>>> = Ghost(Seq::empty());
    let mut cur: Vec<u8> = Vec::new();
    assert(body@.skip(0) =~= body@);
    for i in 0..n
        invariant
            n == body@.len(),
            lines_done@ + split_lines_from(body@.skip(i as int), cur@) == split_lines(body@),
            out@.len() == payloads(lines_done@).len(),
            forall|j: int| 0 <= j < out@.len() ==> #[trigger] out@[j]@ == payloads(lines_done@)[j],
    {
        let ghost rest = body@.skip(i as int);
        assert(rest.drop_first() =~= body@.skip(i + 1));
        assert(rest[0] == body@[i as int]);
        if body[i] == 10 {
            let ghost ld = lines_done@;
            proof {
                lines_done@ = ld.push(cur@);
                assert(lines_done@.drop_last() =~= ld);
            }
            assert(ld + split_lines_from(rest, cur@) =~= lines_done@ + split_lines_from(body@.skip(i + 1), Seq::empty()));
            match line_payload(cur.as_slice()) {
                Some(p) => out.push(p),
                None => {},
            }
            cur = Vec::new();
        } else {
            cur.push(body[i]);
        }
    }
    let ghost ld = lines_done@;
    proof {
        assert(body@.skip(n as int) =~= Seq::<u8>::empty());
        assert(split_lines_from(body@.skip(n as int), cur@) == seq![cur@]);
        lines_done@ = ld.push(cur@);
        assert(lines_done@.drop_last() =~= ld);
        assert(lines_done@ =~= split_lines(body@));
    }
    match line_payload(cur.as_slice()) {
        Some(p) => out.push(p),
        None => {},
    }
    out
}

/// In a stream, each usage field is the one reported by the last event that
/// reports it: a later event overrides earlier ones, and an event that does
/// not report a field leaves it as it was.
pub proof fn lemma_last_report_wins(events: Seq<Option<JsonValue>>, k: int)
    requires
        0 <= k < events.len(),
        events[k] is Some,
    ensures
        ({
            let u = usage_of(events[k]->Some_0);
            let r = events_usage(events);
            &&& (u.prompt is Some && forall|j: int| k < j < events.len() ==> (#[trigger] events[j] matches Some(v) ==> usage_of(v).prompt is None))
                ==> r.prompt == u.prompt
            &&& (u.completion is Some && forall|j: int| k < j < events.len() ==> (#[trigger] events[j] matches Some(v) ==> usage_of(v).completion is None))
                ==> r.completion == u.completion
            &&& (u.cached is Some && forall|j: int| k < j < events.len() ==> (#[trigger] events[j] matches Some(v) ==> usage_of(v).cached is None))
                ==> r.cached == u.cached
            &&& (u.total is Some && forall|j: int| k < j < events.len() ==> (#[trigger] events[j] matches Some(v) ==> usage_of(v).total is None))
                ==> r.total == u.total
        }),
    decreases events.len(),
{
    if k < events.len() - 1 {
        let pre = events.drop_last();
        assert(pre[k] == events[k]);
        assert forall|j: int| k < j < pre.len() implies pre[j] == #[trigger] events[j] by {}
        lemma_last_report_wins(pre, k);
    }
}

/// A usage field that no event of a stream reports stays unknown.
pub proof fn lemma_unreported_stays_none(events: Seq<Option<JsonValue>>)
    ensures
        (forall|j: int| 0 <= j < events.len() ==> (#[trigger] events[j] matches Some(v) ==> usage_of(v).completion is None))
            ==> events_usage(events).completion is None,
        (forall|j: int| 0 <= j < events.len() ==> (#[trigger] events[j] matches Some(v) ==> usage_of(v).prompt is None))
            ==> events_usage(events).prompt is None,
        (forall|j: int| 0 <= j < events.len() ==> (#[trigger] events[j] matches Some(v) ==> usage_of(v).cached is None))
            ==> events_usage(events).cached is None,
        (forall|j: int| 0 <= j < events.len() ==> (#[trigger] events[j] matches Some(v) ==> usage_of(v).total is None))
            ==> events_usage(events).total is None,
    decreases events.len(),
{
    if events.len() > 0 {
        let pre = events.drop_last();
        assert forall|j: int| 0 <= j < pre.len() implies pre[j] == #[trigger] events[j] by {}
        lemma_unreported_stays_none(pre);
    }
}

} // verus!
