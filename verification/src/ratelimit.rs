//! Rate limits: which configured limits apply to a request, the counters they
//! use, and what each counter reading decides.
use vstd::prelude::*;
use vstd::string::*;
use crate::config::LimitConfig;
use crate::text::{push_str, str_eq};

verus! {

/// Window of the request and token counters, in milliseconds.
pub const WINDOW_MS: u64 = 60000;

/// Tokens charged up front against a TPM limit; reconciled with the actual
/// count once the response is done.
pub const DEFAULT_TOKEN_PREDEDUCT: i64 = 1024;

/// The counter a limit is checked against.
#[derive(Debug, Clone, Copy, PartialEq, Eq, Structural)]
pub enum CheckKind {
    /// Requests per minute.
    Requests,
    /// Tokens per minute.
    Tokens,
    /// Requests in flight.
    Concurrency,
}

/// One counter to consult for a request.
pub struct RateCheck {
    pub kind: CheckKind,
    /// The counter's key: `rpm:`, `tpm:` or `conc:`, then the scope.
    pub key: String,
    pub limit: u64,
}

/// The counter scope of a limit for this request, or `None` when the limit
/// does not apply: `key:<id>` and `project:<id>` for a target that names
/// this key or project or is `*` (or unset), `global` for a global limit.
pub open spec fn scope_of(kind: Seq<char>, id: Option<Seq<char>>, key_id: Seq<char>, project_id: Seq<char>) -> Option<
    Seq<char>,
> {
    let pattern = match id {
        Some(p) => p,
        None => "*"@,
    };
    if kind == "key"@ {
        if pattern != "*"@ && pattern != key_id {
            None
        } else {
            Some("key:"@ + key_id)
        }
    } else if kind == "project"@ {
        if pattern != "*"@ && pattern != project_id {
            None
        } else {
            Some("project:"@ + project_id)
        }
    } else if kind == "global"@ {
        Some("global"@)
    } else {
        None
    }
}

pub open spec fn opt_text(o: Option<String>) -> Option<Seq<char>> {
    match o {
        Some(s) => Some(s@),
        None => None,
    }
}

/// The checks of one applicable limit, in order: requests, tokens,
/// concurrency, each where configured.
pub open spec fn limit_checks(l: LimitConfig, scope: Seq<char>) -> Seq<(CheckKind, Seq<char>, u64)> {
    let a = match l.rpm {
        Some(r) => seq![(CheckKind::Requests, "rpm:"@ + scope, r)],
        None => Seq::empty(),
    };
    let b = match l.tpm {
        Some(t) => seq![(CheckKind::Tokens, "tpm:"@ + scope, t)],
        None => Seq::empty(),
    };
    let c = match l.concurrency {
        Some(n) => seq![(CheckKind::Concurrency, "conc:"@ + scope, n as u64)],
        None => Seq::empty(),
    };
    a + b + c
}

/// All checks for a request, limit by limit in configuration order.
pub open spec fn all_checks(ls: Seq<LimitConfig>, key_id: Seq<char>, project_id: Seq<char>) -> Seq<
    (CheckKind, Seq<char>, u64),
>
    decreases ls.len(),
{
    if ls.len() == 0 {
        Seq::empty()
    } else {
        let l = ls.last();
        all_checks(ls.drop_last(), key_id, project_id) + match scope_of(
            l.target.kind@,
            opt_text(l.target.id),
            key_id,
            project_id,
        ) {
            Some(s) => limit_checks(l, s),
            None => Seq::empty(),
        }
    }
}

pub open spec fn check_view(c: RateCheck) -> (CheckKind, Seq<char>, u64) {
    (c.kind, c.key@, c.limit)
}

pub open spec fn checks_view(cs: Seq<RateCheck>) -> Seq<(CheckKind, Seq<char>, u64)> {
    cs.map_values(|c: RateCheck| check_view(c))
}

fn limit_scope(kind: &str, id: &Option<String>, key_id: &str, project_id: &str) -> (r: Option<String>)
    ensures
        opt_text(r) == scope_of(kind@, opt_text(*id), key_id@, project_id@),
{
    let pattern: &str = match id {
        Some(p) => p.as_str(),
        None => "*",
    };
    if str_eq(kind, "key") {
        if !str_eq(pattern, "*") && !str_eq(pattern, key_id) {
            None
        } else {
            let mut s = String::from_str("key:");
            push_str(&mut s, key_id);
            Some(s)
        }
    } else if str_eq(kind, "project") {
        if !str_eq(pattern, "*") && !str_eq(pattern, project_id) {
            None
        } else {
            let mut s = String::from_str("project:");
            push_str(&mut s, project_id);
            Some(s)
        }
    } else if str_eq(kind, "global") {
        Some(String::from_str("global"))
    } else {
        None
    }
}

fn counter_key(prefix: &str, scope: &str) -> (r: String)
    ensures
        r@ == prefix@ + scope@,
{
    let mut s = String::from_str(prefix);
    push_str(&mut s, scope);
    s
}

/// The counters to consult for a request by `key_id` in `project_id`.
pub fn rate_checks(limits: &[LimitConfig], key_id: &str, project_id: &str) -> (r: Vec<RateCheck>)
    ensures
        checks_view(r@) == all_checks(limits@, key_id@, project_id@),
{
    let mut out: Vec<RateCheck> = Vec::new();
    let n = limits.len();
    for i in 0..n
        invariant
            n == limits@.len(),
            checks_view(out@) == all_checks(limits@.take(i as int), key_id@, project_id@),
    {
        assert(limits@.take(i + 1).drop_last() =~= limits@.take(i as int));
        let l = &limits[i];
        let ghost before = checks_view(out@);
        match limit_scope(l.target.kind.as_str(), &l.target.id, key_id, project_id) {
            None => {
                assert(before + Seq::<(CheckKind, Seq<char>, u64)>::empty() =~= before);
            },
            Some(scope) => {
                let ghost a = checks_view(out@);
                match l.rpm {
                    Some(r) => {
                        out.push(
                            RateCheck {
                                kind: CheckKind::Requests,
                                key: counter_key("rpm:", scope.as_str()),
                                limit: r,
                            },
                        );
                    },
                    None => {},
                }
                let ghost b = checks_view(out@);
                match l.tpm {
                    Some(t) => {
                        out.push(
                            RateCheck {
                                kind: CheckKind::Tokens,
                                key: counter_key("tpm:", scope.as_str()),
                                limit: t,
                            },
                        );
                    },
                    None => {},
                }
                let ghost c = checks_view(out@);
                match l.concurrency {
                    Some(m) => {
                        out.push(
                            RateCheck {
                                kind: CheckKind::Concurrency,
                                key: counter_key("conc:", scope.as_str()),
                                limit: m as u64,
                            },
                        );
                    },
                    None => {},
                }
                proof {
                    let lc = limit_checks(*l, scope@);
                    let pa = match l.rpm {
                        Some(r) => seq![(CheckKind::Requests, "rpm:"@ + scope@, r)],
                        None => Seq::empty(),
                    };
                    let pb = match l.tpm {
                        Some(t) => seq![(CheckKind::Tokens, "tpm:"@ + scope@, t)],
                        None => Seq::empty(),
                    };
                    let pc = match l.concurrency {
                        Some(m) => seq![(CheckKind::Concurrency, "conc:"@ + scope@, m as u64)],
                        None => Seq::empty(),
                    };
                    assert(b =~= a + pa);
                    assert(c =~= b + pb);
                    assert(checks_view(out@) =~= c + pc);
                    assert(checks_view(out@) =~= before + lc);
                }
            },
        }
    }
    assert(limits@.take(n as int) =~= limits@);
    out
}

/// The amount a check adds to its counter: one request, or the token
/// pre-deduction. Concurrency slots are acquired, not counted.
pub open spec fn increment_of(kind: CheckKind) -> i64 {
    match kind {
        CheckKind::Requests => 1,
        CheckKind::Tokens => DEFAULT_TOKEN_PREDEDUCT,
        CheckKind::Concurrency => 0,
    }
}

impl RateCheck {
    pub fn increment(&self) -> (r: i64)
        ensures
            r == increment_of(self.kind),
    {
        match self.kind {
            CheckKind::Requests => 1,
            CheckKind::Tokens => DEFAULT_TOKEN_PREDEDUCT,
            CheckKind::Concurrency => 0,
        }
    }
}

/// What a counter reading, or a slot request, came back as.
pub enum CheckOutcome {
    /// The counter's value after the increment.
    Counted(i64),
    /// Whether a concurrency slot was granted.
    Slot(bool),
}

/// What the check decides.
#[derive(Debug, Clone, Copy, PartialEq, Eq, Structural)]
pub enum Verdict {
    /// Within the limit.
    Pass,
    /// Within the limit; the pre-deducted tokens are reconciled when the
    /// request is done.
    PassReserving,
    /// Over the limit: the request is refused (429).
    Reject,
    /// Over the token limit: the pre-deduction is taken back first
    /// (increment by `-DEFAULT_TOKEN_PREDEDUCT`), then the request is refused.
    RollbackAndReject,
}

/// The counter's value read as `u64` (`count as u64`, wrapping a negative
/// value) is above the limit.
pub open spec fn over_limit(count: i64, limit: u64) -> bool {
    (if count >= 0 {
        count as int
    } else {
        count + 18446744073709551616
    }) > limit
}

pub open spec fn verdict_of(kind: CheckKind, limit: u64, outcome: CheckOutcome) -> Verdict {
    match (kind, outcome) {
        (CheckKind::Concurrency, CheckOutcome::Slot(granted)) => if granted {
            Verdict::Pass
        } else {
            Verdict::Reject
        },
        (CheckKind::Requests, CheckOutcome::Counted(c)) => if over_limit(c, limit) {
            Verdict::Reject
        } else {
            Verdict::Pass
        },
        (CheckKind::Tokens, CheckOutcome::Counted(c)) => if over_limit(c, limit) {
            Verdict::RollbackAndReject
        } else {
            Verdict::PassReserving
        },
        _ => Verdict::Reject,
    }
}

fn as_unsigned(count: i64) -> (r: u64)
    ensures
        r as int == (if count >= 0 {
            count as int
        } else {
            count + 18446744073709551616
        }),
{
    if count >= 0 {
        count as u64
    } else {
        let m: i64 = count + 1;
        let p: u64 = (-m) as u64;
        u64::MAX - p
    }
}

impl RateCheck {
    /// The decision on what a counter or slot request returned. An outcome
    /// of the wrong form for the check refuses the request.
    pub fn verdict(&self, outcome: CheckOutcome) -> (r: Verdict)
        ensures
            r == verdict_of(self.kind, self.limit, outcome),
    {
        match (self.kind, outcome) {
            (CheckKind::Concurrency, CheckOutcome::Slot(granted)) => if granted {
                Verdict::Pass
            } else {
                Verdict::Reject
            },
            (CheckKind::Requests, CheckOutcome::Counted(c)) => if as_unsigned(c) > self.limit {
                Verdict::Reject
            } else {
                Verdict::Pass
            },
            (CheckKind::Tokens, CheckOutcome::Counted(c)) => if as_unsigned(c) > self.limit {
                Verdict::RollbackAndReject
            } else {
                Verdict::PassReserving
            },
            _ => Verdict::Reject,
        }
    }
}

/// When the request is done, the token counter is corrected by the
/// difference between the actual count and the pre-deduction; nothing is
/// sent when they agree.
pub fn reconcile_delta(actual_tokens: i64, prededucted: i64) -> (r: Option<i64>)
    requires
        i64::MIN <= actual_tokens - prededucted <= i64::MAX,
    ensures
        actual_tokens == prededucted ==> r is None,
        actual_tokens != prededucted ==> r == Some((actual_tokens - prededucted) as i64),
{
    let delta = actual_tokens - prededucted;
    if delta == 0 {
        None
    } else {
        Some(delta)
    }
}

/// A key limit whose target is `*` (or names no key) applies to every key,
/// under that key's own counters; one naming another key does not apply.
pub proof fn lemma_key_limit_scope(id: Option<Seq<char>>, key_id: Seq<char>, project_id: Seq<char>)
    ensures
        (id is None || id == Some("*"@)) ==> scope_of("key"@, id, key_id, project_id) == Some(
            "key:"@ + key_id,
        ),
        (id matches Some(x) && x != "*"@ && x != key_id) ==> scope_of(
            "key"@,
            id,
            key_id,
            project_id,
        ) is None,
{
}

/// A project limit whose target is `*` (or names no project) applies to every
/// project, under that project's own counters; one naming another project
/// does not apply.
pub proof fn lemma_project_limit_scope(id: Option<Seq<char>>, key_id: Seq<char>, project_id: Seq<char>)
    ensures
        (id is None || id == Some("*"@) || id == Some(project_id)) ==> scope_of("project"@, id, key_id, project_id)
            == Some("project:"@ + project_id),
        (id matches Some(x) && x != "*"@ && x != project_id) ==> scope_of(
            "project"@,
            id,
            key_id,
            project_id,
        ) is None,
{
    reveal_strlit("project");
    reveal_strlit("key");
    assert("project"@[0] != "key"@[0]);
}

/// A limit that targets another key or another project adds no check to a
/// request: the checks are those of the other limits alone.
pub proof fn lemma_foreign_limit_adds_nothing(ls: Seq<LimitConfig>, l: LimitConfig, key_id: Seq<char>, project_id: Seq<char>)
    requires
        l.target.kind@ == "key"@ || l.target.kind@ == "project"@,
        opt_text(l.target.id) matches Some(x) && x != "*"@ && x != (if l.target.kind@ == "key"@ {
            key_id
        } else {
            project_id
        }),
    ensures
        all_checks(ls.push(l), key_id, project_id) == all_checks(ls, key_id, project_id),
{
    assert(ls.push(l).drop_last() =~= ls);
    assert(all_checks(ls, key_id, project_id) + Seq::empty() =~= all_checks(ls, key_id, project_id));
}

/// A project limit that applies to the request adds, after the checks of the
/// limits before it, its requests check on the request's own project
/// counter `rpm:project:<project>` (when it sets `rpm`).
pub proof fn lemma_project_limit_checks(ls: Seq<LimitConfig>, l: LimitConfig, key_id: Seq<char>, project_id: Seq<char>)
    requires
        l.target.kind@ == "project"@,
        opt_text(l.target.id) is None || opt_text(l.target.id) == Some("*"@) || opt_text(l.target.id)
            == Some(project_id),
        l.rpm is Some,
    ensures
        ({
            let before = all_checks(ls, key_id, project_id);
            let after = all_checks(ls.push(l), key_id, project_id);
            &&& after.len() > before.len()
            &&& after.take(before.len() as int) == before
            &&& after[before.len() as int] == (CheckKind::Requests, "rpm:project:"@ + project_id, l.rpm->Some_0)
        }),
{
    assert(ls.push(l).drop_last() =~= ls);
    let before = all_checks(ls, key_id, project_id);
    let after = all_checks(ls.push(l), key_id, project_id);
    lemma_project_limit_scope(opt_text(l.target.id), key_id, project_id);
    let scope = "project:"@ + project_id;
    let lc = limit_checks(l, scope);
    assert(after == before + lc);
    assert(lc[0] == (CheckKind::Requests, "rpm:"@ + scope, l.rpm->Some_0));
    assert(after.take(before.len() as int) =~= before);
    assert(after[before.len() as int] == lc[0]);
    assert(("rpm:"@ + ("project:"@ + project_id)) =~= "rpm:project:"@ + project_id) by {
        reveal_strlit("rpm:");
        reveal_strlit("project:");
        reveal_strlit("rpm:project:");
    }
}

/// A counter scope of the request itself: its key's, its project's, or the
/// global one.
pub open spec fn own_scope(scope: Seq<char>, key_id: Seq<char>, project_id: Seq<char>) -> bool {
    scope == "key:"@ + key_id || scope == "project:"@ + project_id || scope == "global"@
}

/// A counter name `rpm:`, `tpm:` or `conc:` followed by one of the request's
/// own scopes.
pub open spec fn own_counter(name: Seq<char>, key_id: Seq<char>, project_id: Seq<char>) -> bool {
    ||| (name.len() >= 4 && (name.take(4) == "rpm:"@ || name.take(4) == "tpm:"@) && own_scope(name.skip(4), key_id, project_id))
    ||| (name.len() >= 5 && name.take(5) == "conc:"@ && own_scope(name.skip(5), key_id, project_id))
}

/// Every check of a request is on one of its own counters: its key's, its
/// project's, or the global one, under `rpm:`, `tpm:` or `conc:`.
pub proof fn lemma_checks_use_own_counters(ls: Seq<LimitConfig>, key_id: Seq<char>, project_id: Seq<char>)
    ensures
        forall|i: int| 0 <= i < all_checks(ls, key_id, project_id).len() ==> own_counter(
            (#[trigger] all_checks(ls, key_id, project_id)[i]).1,
            key_id,
            project_id,
        ),
    decreases ls.len(),
{
    if ls.len() > 0 {
        let pre_ls = ls.drop_last();
        lemma_checks_use_own_counters(pre_ls, key_id, project_id);
        let l = ls.last();
        let a = all_checks(pre_ls, key_id, project_id);
        let all = all_checks(ls, key_id, project_id);
        reveal_strlit("rpm:");
        reveal_strlit("tpm:");
        reveal_strlit("conc:");
        reveal_strlit("key");
        reveal_strlit("project");
        reveal_strlit("global");
        assert forall|i: int| 0 <= i < all.len() implies own_counter((#[trigger] all[i]).1, key_id, project_id) by {
            if i < a.len() {
                assert(all[i] == a[i]);
            } else {
                let sc = scope_of(l.target.kind@, opt_text(l.target.id), key_id, project_id)->Some_0;
                assert(own_scope(sc, key_id, project_id));
                let c = all[i];
                if c.1 == "rpm:"@ + sc {
                    assert(c.1.take(4) =~= "rpm:"@);
                    assert(c.1.skip(4) =~= sc);
                } else if c.1 == "tpm:"@ + sc {
                    assert(c.1.take(4) =~= "tpm:"@);
                    assert(c.1.skip(4) =~= sc);
                } else {
                    assert(c.1 == "conc:"@ + sc);
                    assert(c.1.take(5) =~= "conc:"@);
                    assert(c.1.skip(5) =~= sc);
                }
            }
        }
    }
}

} // verus!
