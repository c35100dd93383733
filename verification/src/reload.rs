//! Configuration reload: which changes a reload cannot apply until restart.
use vstd::prelude::*;
use vstd::string::*;
use crate::config::{AppConfig, NamedProvider, profile_of};
use crate::error::GatewayError;
use crate::text::{push_str, str_eq};

verus! {

/// The base URL of the provider named `name`, first match.
pub open spec fn base_url_of(ps: Seq<NamedProvider>, name: Seq<char>) -> Option<Seq<char>>
    decreases ps.len(),
{
    if ps.len() == 0 {
        None
    } else {
        match base_url_of(ps.drop_last(), name) {
            Some(u) => Some(u),
            None => if ps.last().name@ == name {
                Some(ps.last().config.base_url@)
            } else {
                None
            },
        }
    }
}

/// The providers changed in a way the running engine does not pick up: a
/// different number of providers, or an old provider that is gone or has
/// another base URL.
pub open spec fn providers_changed(old: Seq<NamedProvider>, new: Seq<NamedProvider>) -> bool {
    old.len() != new.len() || exists|i: int|
        0 <= i < old.len() && base_url_of(new, (#[trigger] old[i]).name@) != Some(
            old[i].config.base_url@,
        )
}

/// Items joined with `", "`.
pub open spec fn joined(ws: Seq<Seq<char>>) -> Seq<char>
    decreases ws.len(),
{
    if ws.len() == 0 {
        Seq::empty()
    } else if ws.len() == 1 {
        ws[0]
    } else {
        joined(ws.drop_last()) + ", "@ + ws.last()
    }
}

/// The warnings of a reload, in order.
pub open spec fn reload_warnings(old: AppConfig, new: AppConfig) -> Seq<Seq<char>> {
    let a = if old.server.bind@ != new.server.bind@ {
        seq!["server.bind changed (requires restart)"@]
    } else {
        Seq::empty()
    };
    let b = if providers_changed(old.providers@, new.providers@) {
        seq!["providers changed (proxy engine still uses old credentials until restart)"@]
    } else {
        Seq::empty()
    };
    let c = if profile_of(old.storage) != profile_of(new.storage) {
        seq!["storage.profile changed (requires restart)"@]
    } else {
        Seq::empty()
    };
    a + b + c
}

proof fn lemma_base_url_prefix(ps: Seq<NamedProvider>, k: int, name: Seq<char>)
    requires
        0 < k <= ps.len(),
        base_url_of(ps.take(k), name) is Some,
    ensures
        base_url_of(ps, name) == base_url_of(ps.take(k), name),
    decreases ps.len() - k,
{
    if k < ps.len() {
        assert(ps.take(k + 1).drop_last() =~= ps.take(k));
        lemma_base_url_prefix(ps, k + 1, name);
    } else {
        assert(ps.take(k) =~= ps);
    }
}

fn find_base_url<'a>(ps: &'a Vec<NamedProvider>, name: &str) -> (r: Option<&'a String>)
    ensures
        match r {
            Some(u) => base_url_of(ps@, name@) == Some(u@),
            None => base_url_of(ps@, name@) is None,
        },
{
    let n = ps.len();
    for i in 0..n
        invariant
            n == ps@.len(),
            base_url_of(ps@.take(i as int), name@) is None,
    {
        assert(ps@.take(i + 1).drop_last() =~= ps@.take(i as int));
        if str_eq(ps[i].name.as_str(), name) {
            proof {
                lemma_base_url_prefix(ps@, i + 1, name@);
            }
            return Some(&ps[i].config.base_url);
        }
    }
    assert(ps@.take(n as int) =~= ps@);
    None
}

fn providers_differ(old: &Vec<NamedProvider>, new: &Vec<NamedProvider>) -> (r: bool)
    ensures
        r == providers_changed(old@, new@),
{
    if old.len() != new.len() {
        return true;
    }
    let n = old.len();
    for i in 0..n
        invariant
            n == old@.len(),
            old@.len() == new@.len(),
            forall|j: int|
                0 <= j < i ==> base_url_of(new@, (#[trigger] old@[j]).name@) == Some(
                    old@[j].config.base_url@,
                ),
    {
        match find_base_url(new, old[i].name.as_str()) {
            Some(u) => {
                if !str_eq(u.as_str(), old[i].config.base_url.as_str()) {
                    return true;
                }
            },
            None => {
                return true;
            },
        }
    }
    false
}

/// The warnings of a reload, joined with `", "`; empty when the reload is
/// fully applied.
pub fn warn_unsafe_changes(old: &AppConfig, new: &AppConfig) -> (r: String)
    ensures
        r@ == joined(reload_warnings(*old, *new)),
{
    let bind = !str_eq(old.server.bind.as_str(), new.server.bind.as_str());
    let providers = providers_differ(&old.providers, &new.providers);
    let storage = !str_eq(old.storage.profile_name(), new.storage.profile_name());
    let w1 = "server.bind changed (requires restart)";
    let w2 = "providers changed (proxy engine still uses old credentials until restart)";
    let w3 = "storage.profile changed (requires restart)";
    let mut out = String::new();
    let ghost mut ws: Seq<Seq<char>> = Seq::empty();
    if bind {
        push_str(&mut out, w1);
        proof {
            ws = ws.push(w1@);
            assert(out@ =~= joined(ws));
        }
    }
    if providers {
        let ghost before = ws;
        if bind {
            push_str(&mut out, ", ");
        }
        push_str(&mut out, w2);
        proof {
            ws = ws.push(w2@);
            assert(ws.drop_last() =~= before);
            if !bind {
                assert(out@ =~= joined(ws));
            } else {
                assert(out@ =~= joined(ws));
            }
        }
    }
    if storage {
        let ghost before = ws;
        if bind || providers {
            push_str(&mut out, ", ");
        }
        push_str(&mut out, w3);
        proof {
            ws = ws.push(w3@);
            assert(ws.drop_last() =~= before);
            assert(out@ =~= joined(ws));
        }
    }
    proof {
        let rw = reload_warnings(*old, *new);
        assert(rw =~= ws);
    }
    out
}

/// A reload: a configuration that loaded replaces the running one, with the
/// warnings of what it cannot change until restart; one that failed to load
/// leaves the running one in place and its error is reported.
pub fn apply_reload(current: AppConfig, loaded: Result<AppConfig, GatewayError>) -> (r: (AppConfig, Result<String, GatewayError>))
    ensures
        match loaded {
            Ok(new) => r.0 == new && (r.1 matches Ok(w) && w@ == joined(reload_warnings(current, new))),
            Err(e) => r.0 == current && r.1 == Err::<String, GatewayError>(e),
        },
{
    match loaded {
        Ok(new) => {
            let w = warn_unsafe_changes(&current, &new);
            (new, Ok(w))
        },
        Err(e) => (current, Err(e)),
    }
}

} // verus!
