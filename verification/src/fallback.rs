//! The ordered chain of providers tried for a request: the route's primary,
//! then each fallback with the triggers that allow moving on to it.
use vstd::prelude::*;
use vstd::string::*;
use crate::config::{RouteConfig, RouteRetryConfig, RouteTarget};

verus! {

pub struct ProviderChainEntry {
    pub provider: String,
    pub model_override: Option<String>,
    pub trigger: Vec<String>,
}

pub struct ProviderChain {
    pub entries: Vec<ProviderChainEntry>,
    pub retry: RouteRetryConfig,
}

/// A chain entry stands for a route target.
pub open spec fn entry_of(e: ProviderChainEntry, t: RouteTarget) -> bool {
    e.provider@ == t.provider@ && match (e.model_override, t.model) {
        (Some(a), Some(b)) => a@ == b@,
        (None, None) => true,
        _ => false,
    } && e.trigger@.len() == t.trigger@.len() && forall|i: int|
        0 <= i < t.trigger@.len() ==> #[trigger] e.trigger@[i]@ == t.trigger@[i]@
}

fn clone_strings(v: &Vec<String>) -> (r: Vec<String>)
    ensures
        r@.len() == v@.len(),
        forall|i: int| 0 <= i < v@.len() ==> #[trigger] r@[i]@ == v@[i]@,
{
    let mut out: Vec<String> = Vec::new();
    let n = v.len();
    for i in 0..n
        invariant
            n == v@.len(),
            out@.len() == i,
            forall|j: int| 0 <= j < i ==> #[trigger] out@[j]@ == v@[j]@,
    {
        out.push(v[i].clone());
    }
    out
}

fn clone_opt(o: &Option<String>) -> (r: Option<String>)
    ensures
        match (r, *o) {
            (Some(a), Some(b)) => a@ == b@,
            (None, None) => true,
            _ => false,
        },
{
    match o {
        Some(s) => Some(s.clone()),
        None => None,
    }
}

impl ProviderChainEntry {
    fn from_target(t: &RouteTarget) -> (r: Self)
        ensures
            entry_of(r, *t),
    {
        ProviderChainEntry {
            provider: t.provider.clone(),
            model_override: clone_opt(&t.model),
            trigger: clone_strings(&t.trigger),
        }
    }
}

impl ProviderChain {
    /// A chain of the one provider, with no triggers and the default retry
    /// policy (3 attempts, 500 ms initial backoff).
    pub fn primary_only(provider: &str) -> (r: Self)
        ensures
            r.entries@.len() == 1,
            r.entries@[0].provider@ == provider@,
            r.entries@[0].model_override is None,
            r.entries@[0].trigger@.len() == 0,
            r.retry.max_attempts == 3,
            r.retry.initial_backoff_ms == 500,
    {
        let mut entries: Vec<ProviderChainEntry> = Vec::new();
        entries.push(
            ProviderChainEntry {
                provider: String::from_str(provider),
                model_override: None,
                trigger: Vec::new(),
            },
        );
        ProviderChain { entries, retry: RouteRetryConfig::default() }
    }

    /// The route's primary followed by its fallbacks, in order, with the
    /// route's retry policy.
    pub fn from_route(route: &RouteConfig) -> (r: Self)
        ensures
            r.entries@.len() == route.fallbacks@.len() + 1,
            entry_of(r.entries@[0], route.primary),
            forall|i: int|
                0 <= i < route.fallbacks@.len() ==> entry_of(
                    #[trigger] r.entries@[i + 1],
                    route.fallbacks@[i],
                ),
            r.retry == route.retry,
    {
        let mut entries: Vec<ProviderChainEntry> = Vec::new();
        entries.push(ProviderChainEntry::from_target(&route.primary));
        let n = route.fallbacks.len();
        for i in 0..n
            invariant
                n == route.fallbacks@.len(),
                entries@.len() == i + 1,
                entry_of(entries@[0], route.primary),
                forall|j: int| 0 <= j < i ==> entry_of(#[trigger] entries@[j + 1], route.fallbacks@[j]),
        {
            entries.push(ProviderChainEntry::from_target(&route.fallbacks[i]));
        }
        ProviderChain { entries, retry: route.retry }
    }
}

/// Trace entry for a single provider attempt, recorded in the request log.
pub struct AttemptTrace {
    pub provider: String,
    pub model: Option<String>,
    pub status: Option<u16>,
    pub outcome: &'static str,
    pub duration_ms: u64,
}

} // verus!
