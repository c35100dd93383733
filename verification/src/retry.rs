//! Classification of upstream attempt outcomes, the retry backoff ceiling and
//! the fallback trigger vocabulary.
use vstd::prelude::*;
use crate::error::{GatewayError, error_status};
use crate::text::{lower_eq, ascii_lower};

verus! {

/// Outcome class used by both retry and fallback logic.
#[derive(Debug, Clone, Copy, PartialEq, Eq, Structural)]
pub enum AttemptOutcome {
    Success,
    RetryableStatus(u16),
    RetryableNetwork,
    NonRetryable(u16),
    Timeout,
}

/// The statuses that are worth another attempt.
pub open spec fn retryable_status(status: u16) -> bool {
    status == 408 || status == 425 || status == 429 || status == 500 || status == 502
        || status == 503 || status == 504
}

pub fn is_retryable_status(status: u16) -> (r: bool)
    ensures
        r == retryable_status(status),
{
    status == 408 || status == 425 || status == 429 || status == 500 || status == 502
        || status == 503 || status == 504
}

pub open spec fn outcome_of_status(status: u16) -> AttemptOutcome {
    if retryable_status(status) {
        AttemptOutcome::RetryableStatus(status)
    } else if 200 <= status < 400 {
        AttemptOutcome::Success
    } else {
        AttemptOutcome::NonRetryable(status)
    }
}

pub open spec fn outcome_of_error(err: GatewayError) -> AttemptOutcome {
    match err {
        GatewayError::UpstreamTimeout => AttemptOutcome::Timeout,
        GatewayError::Http(_) => AttemptOutcome::RetryableNetwork,
        _ => AttemptOutcome::NonRetryable(error_status(err)),
    }
}

pub open spec fn outcome_retryable(o: AttemptOutcome) -> bool {
    match o {
        AttemptOutcome::RetryableStatus(_) | AttemptOutcome::RetryableNetwork
        | AttemptOutcome::Timeout => true,
        _ => false,
    }
}

impl AttemptOutcome {
    pub fn from_status(status: u16) -> (r: Self)
        ensures
            r == outcome_of_status(status),
    {
        if is_retryable_status(status) {
            AttemptOutcome::RetryableStatus(status)
        } else if 200 <= status && status < 400 {
            AttemptOutcome::Success
        } else {
            AttemptOutcome::NonRetryable(status)
        }
    }

    pub fn from_error(err: &GatewayError) -> (r: Self)
        ensures
            r == outcome_of_error(*err),
    {
        match err {
            GatewayError::UpstreamTimeout => AttemptOutcome::Timeout,
            GatewayError::Http(_) => AttemptOutcome::RetryableNetwork,
            _ => AttemptOutcome::NonRetryable(err.status_code()),
        }
    }

    pub fn is_retryable(self) -> (r: bool)
        ensures
            r == outcome_retryable(self),
    {
        match self {
            AttemptOutcome::RetryableStatus(_) | AttemptOutcome::RetryableNetwork
            | AttemptOutcome::Timeout => true,
            _ => false,
        }
    }
}

/// `2^n`.
pub open spec fn two_pow(n: nat) -> nat
    decreases n,
{
    if n == 0 {
        1
    } else {
        2 * two_pow((n - 1) as nat)
    }
}

/// `2^min(attempt, 8)`.
pub open spec fn backoff_factor(attempt: u32) -> nat {
    if attempt >= 8 {
        256
    } else {
        two_pow(attempt as nat)
    }
}

/// Upper bound of the jittered backoff before attempt `attempt + 1`:
/// `initial_backoff_ms * 2^min(attempt, 8)` (saturating), capped at 10 s.
pub open spec fn backoff_ceiling(initial_backoff_ms: u64, attempt: u32) -> u64 {
    let base = initial_backoff_ms as int * backoff_factor(attempt) as int;
    if base >= 10_000 {
        10_000
    } else {
        base as u64
    }
}

/// The cap of the full-jitter backoff; the wait itself is a uniformly random
/// fraction of it.
pub fn backoff_cap_ms(initial_backoff_ms: u64, attempt: u32) -> (r: u64)
    ensures
        r == backoff_ceiling(initial_backoff_ms, attempt),
        r <= 10_000,
{
    let e: u32 = if attempt < 8 {
        attempt
    } else {
        8
    };
    let mut factor: u64 = 1;
    for i in 0..e
        invariant
            e <= 8,
            factor == two_pow(i as nat),
            factor <= 256,
    {
        proof {
            assert(two_pow((i + 1) as nat) == 2 * two_pow(i as nat));
            assert(two_pow(i as nat) <= 128) by {
                assert(i < 8);
                reveal_with_fuel(two_pow, 9);
                if i == 0 {} else if i == 1 {} else if i == 2 {} else if i == 3 {}
                else if i == 4 {} else if i == 5 {} else if i == 6 {} else {}
            }
        }
        factor = factor * 2;
    }
    proof {
        if attempt >= 8 {
            reveal_with_fuel(two_pow, 9);
        }
    }
    let base: u64 = match initial_backoff_ms.checked_mul(factor) {
        Some(b) => b,
        None => u64::MAX,
    };
    if base >= 10_000 {
        10_000
    } else {
        base
    }
}

/// The fallback trigger names, compared after ASCII lowering.
pub open spec fn trigger_matches(outcome: AttemptOutcome, t: Seq<char>) -> bool {
    let t = ascii_lower(t);
    match outcome {
        AttemptOutcome::RetryableStatus(s) => if 500 <= s < 600 {
            t == "upstream_5xx"@ || t == "upstream_error"@
        } else if s == 429 {
            t == "rate_limited"@ || t == "ratelimited"@
        } else {
            false
        },
        AttemptOutcome::NonRetryable(s) => 500 <= s < 600 && (t == "upstream_5xx"@ || t
            == "upstream_error"@),
        AttemptOutcome::Timeout => t == "timeout"@,
        AttemptOutcome::RetryableNetwork => t == "network"@ || t == "timeout"@,
        AttemptOutcome::Success => false,
    }
}

/// Whether the outcome of an entry lets the chain go on to a target with
/// these triggers. With no triggers, any failure qualifies.
pub open spec fn fallback_allowed(outcome: AttemptOutcome, triggers: Seq<String>) -> bool {
    if triggers.len() == 0 {
        outcome != AttemptOutcome::Success
    } else {
        exists|i: int| 0 <= i < triggers.len() && trigger_matches(outcome, #[trigger] triggers[i]@)
    }
}

fn one_trigger_matches(outcome: AttemptOutcome, t: &str) -> (r: bool)
    ensures
        r == trigger_matches(outcome, t@),
{
    proof {
        reveal_strlit("upstream_5xx");
        reveal_strlit("upstream_error");
        reveal_strlit("rate_limited");
        reveal_strlit("ratelimited");
        reveal_strlit("timeout");
        reveal_strlit("network");
    }
    match outcome {
        AttemptOutcome::RetryableStatus(s) => if 500 <= s && s < 600 {
            lower_eq(t, "upstream_5xx") || lower_eq(t, "upstream_error")
        } else if s == 429 {
            lower_eq(t, "rate_limited") || lower_eq(t, "ratelimited")
        } else {
            false
        },
        AttemptOutcome::NonRetryable(s) => 500 <= s && s < 600 && (lower_eq(t, "upstream_5xx")
            || lower_eq(t, "upstream_error")),
        AttemptOutcome::Timeout => lower_eq(t, "timeout"),
        AttemptOutcome::RetryableNetwork => lower_eq(t, "network") || lower_eq(t, "timeout"),
        AttemptOutcome::Success => false,
    }
}

/// Determine whether the given attempt outcome maps onto one of the fallback
/// triggers configured for the next target (`upstream_5xx`/`upstream_error`,
/// `rate_limited`/`ratelimited`, `timeout`, `network`). An empty trigger list
/// means any failure.
pub fn matches_fallback_trigger(outcome: AttemptOutcome, triggers: &[String]) -> (r: bool)
    ensures
        r == fallback_allowed(outcome, triggers@),
{
    if triggers.len() == 0 {
        return match outcome {
            AttemptOutcome::Success => false,
            _ => true,
        };
    }
    let n = triggers.len();
    for i in 0..n
        invariant
            n == triggers@.len(),
            forall|j: int| 0 <= j < i ==> !trigger_matches(outcome, #[trigger] triggers@[j]@),
    {
        if one_trigger_matches(outcome, triggers[i].as_str()) {
            return true;
        }
    }
    false
}

/// Whether some trigger in the list is, ignoring ASCII case, `name`.
pub open spec fn names_trigger(triggers: Seq<String>, name: Seq<char>) -> bool {
    exists|i: int| 0 <= i < triggers.len() && ascii_lower(#[trigger] triggers[i]@) == name
}

/// The fallback trigger vocabulary: a `timeout` trigger covers timeouts and
/// network failures; `network` covers network failures; `upstream_5xx` and
/// `upstream_error` cover every 5xx, retried or not; `rate_limited` and
/// `ratelimited` cover a 429. An empty list covers every failure, and a
/// success never moves the chain on.
pub proof fn lemma_trigger_vocabulary(triggers: Seq<String>, s: u16)
    ensures
        names_trigger(triggers, "timeout"@) ==> fallback_allowed(AttemptOutcome::Timeout, triggers)
            && fallback_allowed(AttemptOutcome::RetryableNetwork, triggers),
        names_trigger(triggers, "network"@) ==> fallback_allowed(AttemptOutcome::RetryableNetwork, triggers),
        (names_trigger(triggers, "upstream_5xx"@) || names_trigger(triggers, "upstream_error"@)) && 500 <= s < 600
            ==> fallback_allowed(AttemptOutcome::RetryableStatus(s), triggers)
            && fallback_allowed(AttemptOutcome::NonRetryable(s), triggers),
        (names_trigger(triggers, "rate_limited"@) || names_trigger(triggers, "ratelimited"@))
            ==> fallback_allowed(AttemptOutcome::RetryableStatus(429), triggers),
        triggers.len() == 0 ==> fallback_allowed(AttemptOutcome::Timeout, triggers)
            && fallback_allowed(AttemptOutcome::RetryableNetwork, triggers)
            && fallback_allowed(AttemptOutcome::RetryableStatus(s), triggers)
            && fallback_allowed(AttemptOutcome::NonRetryable(s), triggers),
        !fallback_allowed(AttemptOutcome::Success, triggers),
{
    reveal_strlit("timeout");
    reveal_strlit("network");
    reveal_strlit("upstream_5xx");
    reveal_strlit("upstream_error");
    reveal_strlit("rate_limited");
    reveal_strlit("ratelimited");
    if names_trigger(triggers, "timeout"@) {
        let i = choose|i: int| 0 <= i < triggers.len() && ascii_lower(#[trigger] triggers[i]@) == "timeout"@;
        assert(trigger_matches(AttemptOutcome::Timeout, triggers[i]@));
        assert(trigger_matches(AttemptOutcome::RetryableNetwork, triggers[i]@));
    }
    if names_trigger(triggers, "network"@) {
        let i = choose|i: int| 0 <= i < triggers.len() && ascii_lower(#[trigger] triggers[i]@) == "network"@;
        assert(trigger_matches(AttemptOutcome::RetryableNetwork, triggers[i]@));
    }
    if (names_trigger(triggers, "upstream_5xx"@) || names_trigger(triggers, "upstream_error"@)) && 500 <= s < 600 {
        let i = if names_trigger(triggers, "upstream_5xx"@) {
            choose|i: int| 0 <= i < triggers.len() && ascii_lower(#[trigger] triggers[i]@) == "upstream_5xx"@
        } else {
            choose|i: int| 0 <= i < triggers.len() && ascii_lower(#[trigger] triggers[i]@) == "upstream_error"@
        };
        assert(trigger_matches(AttemptOutcome::RetryableStatus(s), triggers[i]@));
        assert(trigger_matches(AttemptOutcome::NonRetryable(s), triggers[i]@));
    }
    if names_trigger(triggers, "rate_limited"@) || names_trigger(triggers, "ratelimited"@) {
        let i = if names_trigger(triggers, "rate_limited"@) {
            choose|i: int| 0 <= i < triggers.len() && ascii_lower(#[trigger] triggers[i]@) == "rate_limited"@
        } else {
            choose|i: int| 0 <= i < triggers.len() && ascii_lower(#[trigger] triggers[i]@) == "ratelimited"@
        };
        assert(trigger_matches(AttemptOutcome::RetryableStatus(429), triggers[i]@));
    }
}

/// With a non-empty trigger list, an outcome moves the chain on only through a
/// trigger that names it: no `timeout` trigger, no fallback on a timeout; no
/// `network` or `timeout` trigger, none on a network failure; no
/// `upstream_5xx` or `upstream_error` trigger, none on a 5xx; no
/// `rate_limited` or `ratelimited` trigger, none on a 429; and never on any
/// other status.
pub proof fn lemma_trigger_needed(triggers: Seq<String>, s: u16)
    requires
        triggers.len() > 0,
    ensures
        !names_trigger(triggers, "timeout"@) ==> !fallback_allowed(AttemptOutcome::Timeout, triggers),
        !names_trigger(triggers, "timeout"@) && !names_trigger(triggers, "network"@)
            ==> !fallback_allowed(AttemptOutcome::RetryableNetwork, triggers),
        !names_trigger(triggers, "upstream_5xx"@) && !names_trigger(triggers, "upstream_error"@) && 500 <= s < 600
            ==> !fallback_allowed(AttemptOutcome::RetryableStatus(s), triggers)
            && !fallback_allowed(AttemptOutcome::NonRetryable(s), triggers),
        !names_trigger(triggers, "rate_limited"@) && !names_trigger(triggers, "ratelimited"@)
            ==> !fallback_allowed(AttemptOutcome::RetryableStatus(429), triggers),
        !(500 <= s < 600) && s != 429 ==> !fallback_allowed(AttemptOutcome::RetryableStatus(s), triggers)
            && !fallback_allowed(AttemptOutcome::NonRetryable(s), triggers),
{
    assert forall|i: int| 0 <= i < triggers.len() implies {
        let l = ascii_lower(#[trigger] triggers[i]@);
        &&& trigger_matches(AttemptOutcome::Timeout, triggers[i]@) ==> l == "timeout"@
        &&& trigger_matches(AttemptOutcome::RetryableNetwork, triggers[i]@) ==> l == "timeout"@ || l == "network"@
        &&& (500 <= s < 600 && (trigger_matches(AttemptOutcome::RetryableStatus(s), triggers[i]@)
            || trigger_matches(AttemptOutcome::NonRetryable(s), triggers[i]@))) ==> l == "upstream_5xx"@ || l
            == "upstream_error"@
        &&& trigger_matches(AttemptOutcome::RetryableStatus(429), triggers[i]@) ==> l == "rate_limited"@ || l
            == "ratelimited"@
        &&& !(500 <= s < 600) && s != 429 ==> !trigger_matches(AttemptOutcome::RetryableStatus(s), triggers[i]@)
            && !trigger_matches(AttemptOutcome::NonRetryable(s), triggers[i]@)
    } by {}
}

} // verus!
